//! The data that the rest of the library works on.

use vstd::prelude::*;

use crate::path;
use crate::path::{FilePath, PathView};
use crate::path_map::PathMap;

verus! {

/// Backend options for file processing.
#[derive(Debug, Clone, Copy, PartialEq, Eq, Structural)]
pub enum Backend {
    Repomix,
    Yek,
}

impl Default for Backend {
    fn default() -> (r: Self)
        ensures
            r == Backend::Repomix,
    {
        Backend::Repomix
    }
}

impl Backend {
    /// The display name of the backend.
    pub open spec fn name(self) -> Seq<char> {
        match self {
            Backend::Repomix => "Repomix"@,
            Backend::Yek => "Yek"@,
        }
    }

    /// Returns the display name for backend.
    pub fn display_name(&self) -> (r: &'static str)
        ensures
            r@ == self.name(),
    {
        match self {
            Backend::Repomix => "Repomix",
            Backend::Yek => "Yek",
        }
    }
}

/// Output format options for repomix (not needed for yek).
#[derive(Debug, Clone, Copy, PartialEq, Eq, Structural)]
pub enum OutputFormat {
    PlainText,
    Markdown,
    Xml,
}

impl Default for OutputFormat {
    fn default() -> (r: Self)
        ensures
            r == OutputFormat::PlainText,
    {
        OutputFormat::PlainText
    }
}

impl OutputFormat {
    /// The display name of the format.
    pub open spec fn name(self) -> Seq<char> {
        match self {
            OutputFormat::PlainText => "Plain Text"@,
            OutputFormat::Markdown => "Markdown"@,
            OutputFormat::Xml => "XML"@,
        }
    }

    /// The repomix command line flag of the format.
    pub open spec fn flag(self) -> Seq<char> {
        match self {
            OutputFormat::PlainText => "--style=plain"@,
            OutputFormat::Markdown => "--style=markdown"@,
            OutputFormat::Xml => "--style=xml"@,
        }
    }

    /// The format that follows in the cycle plain text, Markdown, XML.
    pub open spec fn next(self) -> OutputFormat {
        match self {
            OutputFormat::PlainText => OutputFormat::Markdown,
            OutputFormat::Markdown => OutputFormat::Xml,
            OutputFormat::Xml => OutputFormat::PlainText,
        }
    }

    /// Returns the display name for format.
    pub fn display_name(&self) -> (r: &'static str)
        ensures
            r@ == self.name(),
    {
        match self {
            OutputFormat::PlainText => "Plain Text",
            OutputFormat::Markdown => "Markdown",
            OutputFormat::Xml => "XML",
        }
    }

    /// Returns the repomix command line flag for format.
    pub fn repomix_flag(&self) -> (r: Option<&'static str>)
        ensures
            r is Some,
            r->0@ == self.flag(),
    {
        match self {
            OutputFormat::PlainText => Some("--style=plain"),
            OutputFormat::Markdown => Some("--style=markdown"),
            OutputFormat::Xml => Some("--style=xml"),
        }
    }

    /// Returns the format that follows in the cycle.
    pub fn cycled(&self) -> (r: OutputFormat)
        ensures
            r == self.next(),
    {
        match self {
            OutputFormat::PlainText => OutputFormat::Markdown,
            OutputFormat::Markdown => OutputFormat::Xml,
            OutputFormat::Xml => OutputFormat::PlainText,
        }
    }
}

/// Cycling the output format three times gives the format back.
pub proof fn lemma_format_cycle(f: OutputFormat)
    ensures
        f.next().next().next() == f,
{
}

/// Represents a single file or directory in our file tree.
#[derive(Debug, PartialEq, Eq)]
pub struct FileNode {
    /// The full path to file or directory
    pub path: FilePath,
    /// Just the filename or directory name (last component of path)
    pub name: String,
    /// True if is a directory, false if is a file
    pub is_directory: bool,
    /// Whether file/directory is currently selected for processing
    pub is_selected: bool,
    /// For directories: whether the directory is expanded to show children
    pub is_expanded: bool,
    /// For directories: list of child file/directory paths
    pub children: Vec<FilePath>,
    /// How deep node is in the tree (0 = root level)
    pub depth: usize,
}

/// The mathematical value of a [`FileNode`].
#[verifier::ext_equal]
pub struct NodeView {
    pub path: PathView,
    pub name: Seq<char>,
    pub is_directory: bool,
    pub is_selected: bool,
    pub is_expanded: bool,
    pub children: Seq<PathView>,
    pub depth: usize,
}

impl View for FileNode {
    type V = NodeView;

    open spec fn view(&self) -> NodeView {
        NodeView {
            path: self.path@,
            name: self.name@,
            is_directory: self.is_directory,
            is_selected: self.is_selected,
            is_expanded: self.is_expanded,
            children: path::paths(self.children@),
            depth: self.depth,
        }
    }
}

/// The node with its expanded state toggled, where it is a directory.
pub open spec fn toggled(n: NodeView) -> NodeView {
    NodeView { is_expanded: if n.is_directory { !n.is_expanded } else { n.is_expanded }, ..n }
}

/// The file tree: every node under its path.
pub type FileTree = PathMap<FileNode>;

/// The mathematical value of a [`FileTree`].
pub type TreeView = Map<PathView, NodeView>;

/// The name of the node at a path: the last component, or nothing where that is no name.
pub open spec fn node_name(path: PathView) -> Seq<char> {
    match path::shown_name_of(path) {
        Some(s) => s,
        None => Seq::empty(),
    }
}

impl FileNode {
    /// Creates a new file node with the given path and metadata.
    /// The name is the last component of the path.
    pub fn new(path: FilePath, is_directory: bool, depth: usize) -> (r: Self)
        ensures
            r@ == (NodeView {
                path: path@,
                name: node_name(path@),
                is_directory,
                is_selected: false,
                is_expanded: false,
                children: Seq::empty(),
                depth,
            }),
    {
        let name = match path.shown_name() {
            Some(s) => s,
            None => String::new(),
        };
        let r = FileNode {
            path,
            name,
            is_directory,
            is_selected: false,
            is_expanded: false,
            children: Vec::new(),
            depth,
        };
        assert(r@.children =~= Seq::<PathView>::empty());
        r
    }

    /// Toggles the expanded state of a directory.
    /// Only applies to directories, files cannot be expanded.
    pub fn toggle_expansion(&mut self)
        ensures
            final(self)@ == toggled(old(self)@),
    {
        if self.is_directory {
            self.is_expanded = !self.is_expanded;
        }
    }
}

impl Clone for FileNode {
    fn clone(&self) -> (r: Self)
        ensures
            r@ == self@,
    {
        FileNode {
            path: self.path.clone(),
            name: self.name.clone(),
            is_directory: self.is_directory,
            is_selected: self.is_selected,
            is_expanded: self.is_expanded,
            children: path::copy_paths(&self.children),
            depth: self.depth,
        }
    }
}

/// Configuration options for repomix execution.
/// These mirror the command-line options that repomix accepts.
#[derive(Debug, PartialEq, Eq)]
pub struct RepomixOptions {
    /// whether to compress the output
    pub compress: bool,
    /// whether to remove comments from source code
    pub remove_comments: bool,
    /// whether to include complete file tree in output
    pub file_tree: bool,
    /// Custom output filename (if not specified, repomix uses default)
    pub output_file: Option<String>,
    /// Output format for the generated file
    pub output_format: OutputFormat,
    /// Backend to use for processing
    pub backend: Backend,
}

impl Default for RepomixOptions {
    /// Provides sensible default values for repomix options.
    fn default() -> (r: Self)
        ensures
            r == (RepomixOptions {
                compress: false,
                remove_comments: false,
                file_tree: false,
                output_file: None,
                output_format: OutputFormat::PlainText,
                backend: Backend::Repomix,
            }),
    {
        RepomixOptions {
            compress: false,
            remove_comments: false,
            file_tree: false,
            output_file: None,
            output_format: OutputFormat::default(),
            backend: Backend::default(),
        }
    }
}

impl Clone for RepomixOptions {
    fn clone(&self) -> (r: Self)
        ensures
            r == *self,
    {
        RepomixOptions {
            compress: self.compress,
            remove_comments: self.remove_comments,
            file_tree: self.file_tree,
            output_file: match &self.output_file {
                Some(s) => Some(s.clone()),
                None => None,
            },
            output_format: self.output_format,
            backend: self.backend,
        }
    }
}

/// Represents which UI component currently has focus.
#[derive(Debug, Clone, Copy, PartialEq, Eq, Structural)]
pub enum Focus {
    FileTree,
}

impl Default for Focus {
    fn default() -> (r: Self)
        ensures
            r == Focus::FileTree,
    {
        Focus::FileTree
    }
}

/// Main application state that holds all the data needed for the UI,
/// central state that gets passed around to different components.
#[derive(Debug)]
pub struct AppState {
    /// The root directory being scanned
    pub root_path: FilePath,
    /// Hierarchical file tree structure for navigation
    pub file_tree: FileTree,
    /// Flat list of currently visible paths in the tree view
    pub visible_paths: Vec<FilePath>,
    /// Index of currently selected item in the visible list
    pub selected_index: usize,
    /// Configuration options for repomix execution
    pub repomix_options: RepomixOptions,
    /// Individual token counts for each file and directory
    pub individual_token_counts: PathMap<Option<usize>>,
    /// Cached map of directories that have selected descendants
    pub dir_descendants_map: PathMap<bool>,
    /// Whether cached descendant map needs a rebuild
    pub dir_descendants_dirty: bool,
    /// Current status message to display to user
    pub status_message: String,
    /// Whether the app is currently processing files
    pub is_processing: bool,
    /// Total token count for selected files
    pub token_count: usize,
    /// Which UI component currently has focus
    pub focus: Focus,
}

/// The mathematical value of an [`AppState`].
pub struct StateView {
    pub root: PathView,
    pub tree: TreeView,
    pub order: Seq<PathView>,
    pub visible: Seq<PathView>,
    pub selected_index: usize,
    pub options: RepomixOptions,
    pub counts: Map<PathView, Option<usize>>,
    pub descendants: Map<PathView, bool>,
    pub descendants_dirty: bool,
    pub status_message: Seq<char>,
    pub is_processing: bool,
    pub token_count: usize,
    pub focus: Focus,
}

impl View for AppState {
    type V = StateView;

    open spec fn view(&self) -> StateView {
        StateView {
            root: self.root_path@,
            tree: self.file_tree@,
            order: self.file_tree.keys(),
            visible: path::paths(self.visible_paths@),
            selected_index: self.selected_index,
            options: self.repomix_options,
            counts: self.individual_token_counts@,
            descendants: self.dir_descendants_map@,
            descendants_dirty: self.dir_descendants_dirty,
            status_message: self.status_message@,
            is_processing: self.is_processing,
            token_count: self.token_count,
            focus: self.focus,
        }
    }
}

impl AppState {
    /// The three maps of the state are well formed.
    pub open spec fn wf(&self) -> bool {
        &&& self.file_tree.wf()
        &&& self.individual_token_counts.wf()
        &&& self.dir_descendants_map.wf()
    }
}

/// Request for the execution of a backend.
#[derive(Debug)]
pub struct BackendRequest {
    /// Backend to use for processing
    pub backend: Backend,
    /// Repomix options for configuration
    pub repomix_options: RepomixOptions,
    /// List of selected files to process
    pub selected_files: Vec<FilePath>,
    /// Root directory path
    pub root_path: FilePath,
    /// Complete file tree for generating directory structure
    pub file_tree: FileTree,
    /// Unique request id for cancellation
    pub request_id: u64,
}

/// Result type for backend execution.
#[derive(Debug, PartialEq, Eq)]
pub struct BackendResult {
    /// Whether the operation was successful
    pub success: bool,
    /// Output message from the backend
    pub message: String,
    /// Optional output file path if created
    pub output_file: Option<String>,
    /// Optional error message if failed
    pub error: Option<String>,
    /// Request id that result corresponds to
    pub request_id: u64,
}

/// The mathematical value of a [`BackendResult`].
pub struct ResultView {
    pub success: bool,
    pub message: Seq<char>,
    pub output_file: Option<Seq<char>>,
    pub error: Option<Seq<char>>,
    pub request_id: u64,
}

/// The view of a text that may be missing.
pub open spec fn optional_text(s: Option<String>) -> Option<Seq<char>> {
    match s {
        Some(t) => Some(t@),
        None => None,
    }
}

impl View for BackendResult {
    type V = ResultView;

    open spec fn view(&self) -> ResultView {
        ResultView {
            success: self.success,
            message: self.message@,
            output_file: optional_text(self.output_file),
            error: optional_text(self.error),
            request_id: self.request_id,
        }
    }
}

impl Clone for BackendResult {
    fn clone(&self) -> (r: Self)
        ensures
            r == *self,
    {
        BackendResult {
            success: self.success,
            message: self.message.clone(),
            output_file: match &self.output_file {
                Some(s) => Some(s.clone()),
                None => None,
            },
            error: match &self.error {
                Some(s) => Some(s.clone()),
                None => None,
            },
            request_id: self.request_id,
        }
    }
}

} // verus!
