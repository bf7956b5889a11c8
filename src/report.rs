//! The text of a scan report, and the choice of where it goes.

use crate::grouping::{models, DuplicateGroup, GroupModel};
use vstd::prelude::*;

verus! {

/// Each path on a line of its own.
pub open spec fn path_lines(paths: Seq<Seq<char>>) -> Seq<char>
    decreases paths.len(),
{
    if paths.len() == 0 {
        Seq::empty()
    } else {
        path_lines(paths.drop_last()) + paths.last() + "\n"@
    }
}

/// The lines of a group's paths, followed by a separator line.
pub open spec fn group_text(g: GroupModel) -> Seq<char> {
    path_lines(g.1) + "---\n"@
}

/// The texts of the groups, one after another.
pub open spec fn groups_text(groups: Seq<GroupModel>) -> Seq<char>
    decreases groups.len(),
{
    if groups.len() == 0 {
        Seq::empty()
    } else {
        groups_text(groups.drop_last()) + group_text(groups.last())
    }
}

/// The report on a list of groups of duplicates: a message of its own when
/// there are none.
pub open spec fn report_text(groups: Seq<GroupModel>) -> Seq<char> {
    if groups.len() == 0 {
        "No duplicates found.\n"@
    } else {
        groups_text(groups)
    }
}

/// Renders the report on `groups`.
pub fn render_report(groups: &Vec<DuplicateGroup>) -> (r: String)
    ensures
        r@ == report_text(models(groups@)),
{
    if groups.len() == 0 {
        return String::from_str("No duplicates found.\n");
    }
    let ghost ms = models(groups@);
    let mut out = String::new();
    let mut i: usize = 0;
    while i < groups.len()
        invariant
            i <= groups.len(),
            ms == models(groups@),
            out@ == groups_text(ms.take(i as int)),
        decreases groups.len() - i,
    {
        let paths = &groups[i].paths;
        let ghost done = out@;
        let ghost ps = groups@[i as int]@.1;
        let mut j: usize = 0;
        while j < paths.len()
            invariant
                j <= paths.len(),
                ps == paths@.map_values(|p: String| p@),
                out@ == done + path_lines(ps.take(j as int)),
            decreases paths.len() - j,
        {
            out.append(paths[j].as_str());
            out.append("\n");
            proof {
                assert(ps.take(j + 1).drop_last() =~= ps.take(j as int));
                assert(ps[j as int] == paths@[j as int]@);
            }
            assert(out@ =~= done + path_lines(ps.take(j + 1)));
            j = j + 1;
        }
        out.append("---\n");
        proof {
            assert(ps.take(j as int) =~= ps);
            assert(ms.take(i + 1).drop_last() =~= ms.take(i as int));
            assert(ms[i as int] == groups@[i as int]@);
        }
        assert(out@ =~= groups_text(ms.take(i + 1)));
        i = i + 1;
    }
    assert(ms.take(i as int) =~= ms);
    out
}

/// Where a report goes.
#[derive(PartialEq, Eq, Structural, Clone, Copy, Debug)]
pub enum OutputMode {
    /// Printed to standard output.
    Console,
    /// Written to a file, replacing what it held.
    File,
}

/// Reads the selector of the output mode: `1` for the console, `2` for a file.
pub fn parse_output_mode(choice: &str) -> (r: Option<OutputMode>)
    ensures
        r == Some(OutputMode::Console) <==> choice@ == seq!['1'],
        r == Some(OutputMode::File) <==> choice@ == seq!['2'],
        r is None <==> (choice@ != seq!['1'] && choice@ != seq!['2']),
{
    if choice.unicode_len() != 1 {
        None
    } else {
        let c = choice.get_char(0);
        assert(choice@ =~= seq![c]);
        if c == '1' {
            Some(OutputMode::Console)
        } else if c == '2' {
            Some(OutputMode::File)
        } else {
            None
        }
    }
}

} // verus!
