//! What the screen shows of the state.

use vstd::prelude::*;

use crate::file_utils;
use crate::laws::session;
use crate::path::{ComponentView, PathView};
use crate::text;
use crate::token_counter;
use crate::types::{NodeView, OutputFormat, RepomixOptions, StateView};
use crate::ui::file_tree;
use crate::ui::file_tree::{Color, Constraint, SpanView};

verus! {

/// The row of a node shows, after two blanks for each level below the top one, whether a directory
/// is expanded or a file is selected, and the name.
pub proof fn lemma_row_shows_node(n: NodeView, count: Option<usize>, below: bool, marked: bool)
    ensures
        ({
            let row = file_tree::list_item(n, count, below, marked);
            let level = if n.depth == 0 {
                0nat
            } else {
                (n.depth - 1) as nat
            };
            let icon = if n.is_directory && n.is_expanded {
                "[-]"@
            } else if n.is_directory {
                "[+]"@
            } else if n.is_selected {
                "●"@
            } else {
                "○"@
            };
            &&& row.len() > 0
            &&& row[0].text == Seq::new(2 * level, |i: int| ' ') + icon + " "@ + n.name
            &&& marked ==> row[0].color == Some(Color::White)
            &&& !marked && n.is_selected ==> row[0].color == Some(Color::Green)
            &&& !marked && !n.is_selected && !n.is_directory ==> row[0].color == Some(Color::White)
            &&& !marked && !n.is_selected && n.is_directory ==> row[0].color == Some(
                if below && n.depth > 1 {
                    Color::Yellow
                } else {
                    Color::Cyan
                },
            )
        }),
{
    let level = if n.depth == 0 {
        0nat
    } else {
        (n.depth - 1) as nat
    };
    lemma_blanks(level);
}

proof fn lemma_blanks(level: nat)
    ensures
        text::repeated("  "@, level) == Seq::new(2 * level, |i: int| ' '),
    decreases level,
{
    reveal_strlit("  ");
    if level > 0 {
        lemma_blanks((level - 1) as nat);
    }
    assert(text::repeated("  "@, level) =~= Seq::new(2 * level, |i: int| ' '));
}

/// A row shows a token count exactly where one is known and the node is selected, or is a directory
/// with something selected below it; small counts are green, medium ones yellow and large ones red,
/// and on the marked row all are light blue.
pub proof fn lemma_row_shows_count(n: NodeView, count: Option<usize>, below: bool, marked: bool)
    ensures
        ({
            let row = file_tree::list_item(n, count, below, marked);
            let shows = count is Some && (n.is_selected || (n.is_directory && below));
            &&& row.len() == (if shows { 2nat } else { 1 })
            &&& shows ==> row[1].text == " ("@ + token_counter::token_count_text(count->0 as nat)
                + ")"@
            &&& shows && marked ==> row[1].color == Some(Color::LightBlue)
            &&& shows && !marked && count->0 < 1000 ==> row[1].color == Some(Color::Green)
            &&& shows && !marked && 1000 <= count->0 && count->0 < 10000 ==> row[1].color == Some(
                Color::Yellow,
            )
            &&& shows && !marked && count->0 >= 10000 ==> row[1].color == Some(Color::Red)
        }),
{
}

/// The list has one row for each path that it shows: that of its node, with the path's own count
/// and the directory's own mark. One row is marked, that of the mark or the last one, unless the
/// list is empty.
pub proof fn lemma_rows_show_list(s: StateView, i: int)
    requires
        s.visible.len() <= usize::MAX,
    ensures
        ({
            let rows = file_tree::list_rows(s);
            let p = s.visible[i];
            let mark: int = if s.selected_index < s.visible.len() {
                s.selected_index as int
            } else {
                s.visible.len() - 1
            };
            &&& rows.len() == s.visible.len()
            &&& 0 <= i < s.visible.len() ==> rows[i] == file_tree::list_item(
                s.tree[p],
                match s.counts.get(p) {
                    Some(found) => found,
                    None => None,
                },
                s.descendants.get(p) == Some(true),
                i == mark,
            )
            &&& s.visible.len() > 0 ==> file_tree::highlighted(s) == Some(mark as usize)
            &&& s.visible.len() == 0 ==> file_tree::highlighted(s) is None
        }),
{
}

/// The line of the options shows a filled sign for each option that is on, an empty one for each
/// that is off, and the format.
pub proof fn lemma_configuration_shows_options(o: RepomixOptions)
    ensures
        ({
            let line = file_tree::configuration_line(o);
            let on = SpanView { text: "●"@, color: Some(Color::Green) };
            let off = SpanView { text: "○"@, color: Some(Color::Gray) };
            &&& line.len() == 9
            &&& line[0].text == "Options: "@
            &&& line[1] == (if o.file_tree { on } else { off })
            &&& line[2].text == " File Tree (t) │ "@
            &&& line[3] == (if o.compress { on } else { off })
            &&& line[4].text == " Compress (c) │ "@
            &&& line[5] == (if o.remove_comments { on } else { off })
            &&& line[6].text == " Remove Comments (m) │ Format: "@
            &&& line[7].text == (match o.output_format {
                OutputFormat::PlainText => "Plain Text"@,
                OutputFormat::Markdown => "Markdown"@,
                OutputFormat::Xml => "XML"@,
            })
            &&& line[7].color == Some(Color::Green)
            &&& line[8].text == " (f)"@
            &&& line[0].color is None && line[2].color is None && line[4].color is None
                && line[6].color is None && line[8].color is None
        }),
{
}

/// The box of the file tree names the backend, the root directory, how many files are selected and
/// how many tokens they have; it shows the rows of the list, and a status message where there is
/// one, for which it makes room.
pub proof fn lemma_section_shows_state(
    s: StateView,
    token_count: nat,
    message: Seq<char>,
    files: Seq<PathView>,
)
    requires
        s.order.no_duplicates(),
        forall|p: PathView| #[trigger] s.tree.dom().contains(p) <==> s.order.contains(p),
        session::names_selection(s.tree, files),
    ensures
        ({
            let b = file_tree::section(s, token_count, message);
            let root = if s.root.len() > 0 && s.root.last() is Normal {
                s.root.last()->Normal_0
            } else {
                "."@
            };
            &&& b.title.text == (if s.options.backend is Repomix {
                "File Tree (repomix)"@
            } else {
                "File Tree (yek)"@
            })
            &&& b.info.text == root + "  •  Selected: "@ + text::decimal(files.len()) + " items"@
            &&& b.tokens.text == "Tokens: "@ + token_counter::token_count_text(token_count)
            &&& b.rows == file_tree::list_rows(s)
            &&& b.status is Some <==> message.len() > 0
            &&& b.status matches Some(span) ==> span.text == "\n"@ + message && span.color == Some(
                file_tree::status_color(message),
            )
            &&& b.layout.len() == (if message.len() > 0 { 4nat } else { 3 })
            &&& b.hints_index == b.layout.len() - 1
            &&& b.layout[0] == Constraint::Length(1)
            &&& b.layout[1] == Constraint::Min(0)
            &&& message.len() > 0 ==> b.layout[2] == Constraint::Length(3)
            &&& b.layout[b.hints_index as int] == Constraint::Length(2)
            &&& b.hints.text
                == "↑/↓ navigate • ←/→ collapse/expand dirs • Space select files • E expand all • C collapse all • A select all • U unselect all • r run • q quit"@
            &&& b.title.color == Some(Color::Green) && b.info.color == Some(Color::Cyan)
                && b.tokens.color == Some(Color::Yellow) && b.hints.color == Some(Color::Yellow)
        }),
{
    let chosen = file_utils::selected_files(s.tree, s.order);
    crate::laws::lists::lemma_filter_members(s.order, file_utils::selected_file(s.tree));
    assert forall|f: PathView| #[trigger] chosen.contains(f) <==> files.contains(f) by {
        assert(s.tree.dom().contains(f) <==> s.order.contains(f));
    }
    chosen.unique_seq_to_set();
    files.unique_seq_to_set();
    assert(chosen.to_set() =~= files.to_set()) by {
        assert forall|f: PathView| #[trigger] chosen.to_set().contains(f)
            <==> files.to_set().contains(f) by {
            assert(chosen.contains(f) <==> files.contains(f));
        }
    }
}

/// The color of a status message tells what it is about: green for a success, red for an error,
/// yellow for a warning, cyan for work under way, each before the next, and white for the rest.
pub proof fn lemma_status_color(m: Seq<char>)
    ensures
        ({
            let good = text::contains_seq(m, "Success"@) || text::contains_seq(
                m,
                "Copied to clipboard"@,
            );
            let bad = text::contains_seq(m, "Error"@) || text::contains_seq(m, "Failed"@);
            let warning = text::contains_seq(m, "Warning"@);
            let busy = text::contains_seq(m, "Running"@) || text::contains_seq(m, "Processing..."@);
            let c = file_tree::status_color(m);
            &&& good <==> c is Green
            &&& !good && bad <==> c is Red
            &&& !good && !bad && warning <==> c is Yellow
            &&& !good && !bad && !warning && busy <==> c is Cyan
            &&& !good && !bad && !warning && !busy <==> c is White
        }),
{
}

/// With repomix the line of the options stands above the file tree, in a box of three rows; with yek
/// the file tree has the whole screen.
pub proof fn lemma_screen_has_options(s: StateView, token_count: nat, message: Seq<char>)
    ensures
        ({
            let v = file_tree::screen(s, token_count, message);
            &&& s.options.backend is Repomix ==> v.configuration == Some(
                file_tree::configuration_line(s.options),
            ) && v.layout == seq![Constraint::Length(3), Constraint::Min(0)]
            &&& s.options.backend is Yek ==> v.configuration is None && v.layout == seq![
                Constraint::Min(0),
            ]
            &&& v.section == file_tree::section(s, token_count, message)
        }),
{
}

/// Counts are green below a thousand, yellow below ten thousand, and red from there on.
pub proof fn lemma_count_color(n: nat)
    ensures
        file_tree::token_count_color(n) is Green <==> n < 1000,
        file_tree::token_count_color(n) is Yellow <==> 1000 <= n < 10000,
        file_tree::token_count_color(n) is Red <==> n >= 10000,
{
}

/// What a row is told of its path: the number that was entered for it last, and whether it is marked
/// as having something selected below it.
pub proof fn lemma_row_looks_up_path(
    counts: Map<PathView, Option<usize>>,
    below: Map<PathView, bool>,
    p: PathView,
    n: Option<usize>,
    b: bool,
)
    ensures
        file_tree::found_count(counts.insert(p, n), p) == n,
        file_tree::found_count(counts.remove(p), p) is None,
        file_tree::marked_below(below.insert(p, b), p) == b,
        !file_tree::marked_below(below.remove(p), p),
{
}

/// The box names the root directory by its name, and by a dot where it has none in valid Unicode.
pub proof fn lemma_root_is_named(dir: PathView, name: Seq<char>, last: ComponentView)
    ensures
        file_tree::root_name(dir.push(ComponentView::Normal(name))) == name,
        !(last is Normal) ==> file_tree::root_name(dir.push(last)) == "."@,
        file_tree::root_name(Seq::empty()) == "."@,
{
}

} // verus!
