//! `devcon ls`: the projects of this host, as they are shown.

use crate::docker::projects::{Project, ProjectView};
use crate::number::{decimal, to_decimal};
use crate::text::{occurs, stands_at};
use vstd::prelude::*;
use vstd::utf8::encode_utf8;

verus! {

/// What is printed, line by line, on stdout and then on stderr.
#[derive(Debug)]
pub struct Listing {
    pub out: Vec<String>,
    pub err: Vec<String>,
}

/// How many bytes a text takes in UTF-8.
pub open spec fn bytes(s: Seq<char>) -> usize {
    encode_utf8(s).len() as usize
}

/// The width of the name column: the bytes of the longest name.
pub open spec fn name_width(list: Seq<ProjectView>) -> usize
    decreases list.len(),
{
    if list.len() == 0 {
        0
    } else {
        let w = name_width(list.drop_last());
        if bytes(list.last().name) > w {
            bytes(list.last().name)
        } else {
            w
        }
    }
}

/// A text with spaces after it up to a number of chars.
pub open spec fn padded(s: Seq<char>, width: int) -> Seq<char>
    decreases width,
{
    if s.len() >= width {
        s
    } else {
        padded(s, width - 1).push(' ')
    }
}

/// The status column.
pub open spec fn status_text(running: bool) -> Seq<char> {
    if running {
        "\x1b[32mup\x1b[0m     "@
    } else {
        "\x1b[90mstopped\x1b[0m"@
    }
}

/// The row of a project: status, name, kind, whether devcon made it, and how
/// many containers it spans if they are several.
pub open spec fn row_text(p: ProjectView, width: int) -> Seq<char> {
    status_text(p.running) + "  "@ + padded(p.name, width) + "   "@ + padded(p.kind, 9) + if p.devcon_managed {
        "  *"@
    } else {
        seq![]
    } + if p.container_count > 1 {
        "  ("@ + decimal(p.container_count) + " containers)"@
    } else {
        seq![]
    }
}

/// What is said where there is nothing to list.
pub open spec fn nothing_text(all: bool) -> Seq<char> {
    if all {
        "devcon: no containers found on this host."@
    } else {
        "devcon: no dev-container projects found (pass --all to include every compose project)."@
    }
}

/// Some project was made by devcon.
pub open spec fn any_managed(list: Seq<ProjectView>) -> bool {
    exists|i: int| 0 <= i < list.len() && (#[trigger] list[i]).devcon_managed
}

/// What goes to stderr.
pub open spec fn err_lines(list: Seq<ProjectView>, all: bool) -> Seq<Seq<char>> {
    if list.len() == 0 {
        seq![nothing_text(all)]
    } else if any_managed(list) {
        seq!["\n\x1b[90m* created by devcon\x1b[0m"@]
    } else {
        seq![]
    }
}

/// A text with spaces after it up to a number of chars.
fn pad(s: &str, width: usize) -> (r: String)
    ensures
        r@ == padded(s@, width as int),
{
    let mut r: String = s.to_owned();
    let mut n: usize = s.unicode_len();
    while n < width
        invariant
            s@.len() <= n,
            n <= width || n == s@.len(),
            r@ == padded(s@, n as int),
        decreases width - n,
    {
        r.push(' ');
        n += 1;
    }
    r
}

/// The row of a project.
fn row(p: &Project, width: usize) -> (r: String)
    ensures
        r@ == row_text(p.deep_view(), width as int),
{
    let mut r: String = if p.running {
        "\x1b[32mup\x1b[0m     ".to_owned()
    } else {
        "\x1b[90mstopped\x1b[0m".to_owned()
    };
    r.append("  ");
    r.append(pad(p.name.as_str(), width).as_str());
    r.append("   ");
    r.append(pad(p.kind, 9).as_str());
    let ghost had = r@;
    if p.devcon_managed {
        r.append("  *");
    }
    assert(r@ == had + if p.devcon_managed {
        "  *"@
    } else {
        seq![]
    });
    let ghost had = r@;
    let ghost count = if p.container_count > 1 {
        "  ("@ + decimal(p.container_count as nat) + " containers)"@
    } else {
        seq![]
    };
    if p.container_count > 1 {
        r.append("  (");
        r.append(to_decimal(p.container_count as u64).as_str());
        r.append(" containers)");
    }
    assert(r@ == had + count);
    r
}

/// Render `devcon ls`: the dev-container projects present on this host.
pub fn render(projects: &Vec<Project>, all: bool) -> (r: Listing)
    ensures
        r.out.deep_view() == projects.deep_view().map_values(
            |p: ProjectView| row_text(p, name_width(projects.deep_view()) as int),
        ),
        r.err.deep_view() == err_lines(projects.deep_view(), all),
{
    let ghost list = projects.deep_view();
    let mut out: Vec<String> = Vec::new();
    let mut err: Vec<String> = Vec::new();
    if projects.is_empty() {
        let line: String = if all {
            "devcon: no containers found on this host.".to_owned()
        } else {
            "devcon: no dev-container projects found (pass --all to include every compose project).".to_owned()
        };
        err.push(line);
        assert(err.deep_view() == seq![nothing_text(all)]);
        return Listing { out, err };
    }
    // Column-align on the project name.
    let mut width: usize = 0;
    let mut managed: bool = false;
    let mut i: usize = 0;
    assert(list.take(0) == Seq::<ProjectView>::empty());
    while i < projects.len()
        invariant
            list == projects.deep_view(),
            i <= projects.len(),
            width == name_width(list.take(i as int)),
            managed == any_managed(list.take(i as int)),
        decreases projects.len() - i,
    {
        let p = &projects[i];
        assert(list[i as int] == p.deep_view());
        assert(list.take(i + 1).drop_last() == list.take(i as int));
        let n: usize = p.name.as_str().len();
        if n > width {
            width = n;
        }
        let ghost so_far = list.take(i as int);
        let ghost more = list.take(i + 1);
        proof {
            assert(more == so_far.push(p.deep_view()));
            if any_managed(so_far) {
                let k = choose|k: int| 0 <= k < so_far.len() && (#[trigger] so_far[k]).devcon_managed;
                assert(more[k].devcon_managed);
            }
            assert(more[i as int].devcon_managed == p.devcon_managed);
        }
        managed = managed || p.devcon_managed;
        i += 1;
    }
    assert(list.take(i as int) == list);
    let ghost show = |p: ProjectView| row_text(p, width as int);
    let mut n: usize = 0;
    while n < projects.len()
        invariant
            list == projects.deep_view(),
            show == (|p: ProjectView| row_text(p, width as int)),
            n <= projects.len(),
            out.deep_view() == list.take(n as int).map_values(show),
        decreases projects.len() - n,
    {
        let ghost had = out.deep_view();
        let line = row(&projects[n], width);
        assert(list[n as int] == projects@[n as int].deep_view());
        out.push(line);
        assert(out.deep_view() == had.push(show(list[n as int])));
        n += 1;
        assert(out.deep_view() == list.take(n as int).map_values(show));
    }
    assert(list.take(n as int) == list);
    if managed {
        err.push("\n\x1b[90m* created by devcon\x1b[0m".to_owned());
        assert(err.deep_view() == seq!["\n\x1b[90m* created by devcon\x1b[0m"@]);
    }
    Listing { out, err }
}

// ---------------------------------------------------------------------------
// Laws
// ---------------------------------------------------------------------------

/// A text is padded with spaces behind it, and with no more than it takes.
pub proof fn law_padded(s: Seq<char>, width: int)
    ensures
        s.is_prefix_of(padded(s, width)),
        padded(s, width).len() == if s.len() >= width {
            s.len() as int
        } else {
            width
        },
        forall|i: int| s.len() <= i < padded(s, width).len() ==> #[trigger] padded(s, width)[i] == ' ',
    decreases width,
{
    if s.len() < width {
        law_padded(s, width - 1);
        let t = padded(s, width - 1);
        assert(padded(s, width) == t.push(' '));
        assert forall|i: int| s.len() <= i < padded(s, width).len() implies #[trigger] padded(
            s,
            width,
        )[i] == ' ' by {
            if i < t.len() {
                assert(padded(s, width)[i] == t[i]);
            }
        }
    }
}

/// The row of a project begins with its state and its name, shows its kind,
/// and ends with the mark of devcon where devcon made it and the number of its
/// containers where they are several.
pub proof fn law_row_tells(p: ProjectView, width: int)
    ensures
        ((if p.running {
            "\x1b[32mup\x1b[0m     "@
        } else {
            "\x1b[90mstopped\x1b[0m"@
        }) + "  "@ + p.name).is_prefix_of(row_text(p, width)),
        occurs(row_text(p, width), p.kind),
        ((if p.devcon_managed {
            "  *"@
        } else {
            Seq::<char>::empty()
        }) + (if p.container_count > 1 {
            "  ("@ + decimal(p.container_count) + " containers)"@
        } else {
            Seq::<char>::empty()
        })).is_suffix_of(row_text(p, width)),
{
    law_padded(p.name, width);
    law_padded(p.kind, 9);
    let name = padded(p.name, width);
    let kind = padded(p.kind, 9);
    let state = if p.running {
        "\x1b[32mup\x1b[0m     "@
    } else {
        "\x1b[90mstopped\x1b[0m"@
    };
    let mark = if p.devcon_managed {
        "  *"@
    } else {
        Seq::<char>::empty()
    };
    let count = if p.container_count > 1 {
        "  ("@ + decimal(p.container_count) + " containers)"@
    } else {
        Seq::<char>::empty()
    };
    let row = row_text(p, width);
    let front = state + "  "@ + p.name;
    let before_kind = state + "  "@ + name + "   "@;
    assert(row == before_kind + kind + mark + count);
    assert(row.subrange(0, front.len() as int) == front);
    let n = before_kind.len() as int;
    assert(row.subrange(n, n + p.kind.len()) == p.kind);
    assert(stands_at(row, p.kind, n));
    let back = mark + count;
    assert(row.subrange(row.len() - back.len(), row.len() as int) == back);
}

/// No name is wider than the name column.
pub proof fn law_column_fits_every_name(list: Seq<ProjectView>, i: int)
    requires
        0 <= i < list.len(),
    ensures
        bytes(list[i].name) <= name_width(list),
    decreases list.len(),
{
    if i < list.len() - 1 {
        law_column_fits_every_name(list.drop_last(), i);
    }
}

/// The mark of devcon is explained wherever it stands, and nowhere else; an
/// empty list is said to be empty.
pub proof fn law_mark_is_explained(list: Seq<ProjectView>, all: bool)
    ensures
        list.len() == 0 ==> err_lines(list, all).len() == 1,
        list.len() > 0 ==> (err_lines(list, all).len() == 1 <==> exists|i: int|
            0 <= i < list.len() && (#[trigger] list[i]).devcon_managed),
        list.len() > 0 ==> err_lines(list, all).len() <= 1,
{
}

} // verus!
