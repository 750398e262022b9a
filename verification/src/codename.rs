//! A project's codename: the name of the containers made for it.

use crate::path::{
    base, file_name, law_base_is_the_last_name, names, plain_name, plain_names,
};
use crate::text::{
    join, joined, law_pieces_in_parts, lemma_index_cuts, pieces, same, split,
};
use vstd::prelude::*;

verus! {

/// The names that a path is made of, in order.
pub open spec fn components(p: Seq<char>) -> Seq<Seq<char>> {
    pieces(p, '/').filter(|piece: Seq<char>| names(piece))
}

/// The names after the last `workspaces` of a list, if it holds one.
pub open spec fn past_workspaces(list: Seq<Seq<char>>) -> Option<Seq<Seq<char>>>
    decreases list.len(),
{
    if list.len() == 0 {
        None
    } else if list.last() == "workspaces"@ {
        Some(seq![])
    } else {
        match past_workspaces(list.drop_last()) {
            Some(tail) => Some(tail.push(list.last())),
            None => None,
        }
    }
}

/// The codename of a project: where it lies in a `workspaces` directory, its
/// way down from there with `_` between the names; elsewhere its own name.
pub open spec fn codename(project_root: Seq<char>) -> Seq<char> {
    let own = match base(project_root) {
        Some(name) => name,
        None => "workspace"@,
    };
    match past_workspaces(components(project_root)) {
        Some(tail) => if tail.len() > 0 {
            joined(tail, "_"@)
        } else {
            own
        },
        None => own,
    }
}

/// True for a piece of a path that names something.
fn is_name(piece: &str) -> (r: bool)
    ensures
        r == names(piece@),
{
    proof {
        reveal_strlit(".");
        assert("."@ == seq!['.']);
    }
    !piece.is_empty() && !same(piece, ".")
}

/// The codename of a project.
pub fn derive(project_root: &str) -> (r: String)
    ensures
        r@ == codename(project_root@),
{
    let list = split(project_root, '/');
    let ghost all = list.deep_view();
    let ghost pred = |piece: Seq<char>| names(piece);
    let mut inside: bool = false;
    let mut tail: Vec<String> = Vec::new();
    let mut i: usize = 0;
    assert(all.take(0).filter(pred) == Seq::<Seq<char>>::empty()) by {
        reveal(Seq::filter);
    }
    while i < list.len()
        invariant
            all == list.deep_view(),
            pred == (|piece: Seq<char>| names(piece)),
            i <= list.len(),
            past_workspaces(all.take(i as int).filter(pred)) == if inside {
                Some(tail.deep_view())
            } else {
                None
            },
            !inside ==> tail.deep_view() == Seq::<Seq<char>>::empty(),
        decreases list.len() - i,
    {
        let piece = list[i];
        let ghost so_far = all.take(i as int).filter(pred);
        assert(all[i as int] == piece@);
        assert(all.take(i + 1) == all.take(i as int).push(piece@));
        proof {
            all.take(i as int).lemma_filter_push(piece@, pred);
        }
        if is_name(piece) {
            assert(so_far.push(piece@).drop_last() == so_far);
            if same(piece, "workspaces") {
                inside = true;
                tail = Vec::new();
                assert(tail.deep_view() == Seq::<Seq<char>>::empty());
            } else if inside {
                let ghost had = tail.deep_view();
                tail.push(piece.to_owned());
                assert(tail.deep_view() == had.push(piece@));
            }
        }
        i += 1;
    }
    assert(all.take(i as int) == all);
    if inside && tail.len() > 0 {
        return join(&tail, "_");
    }
    match file_name(project_root) {
        Some(name) => name,
        None => "workspace".to_owned(),
    }
}

// ---------------------------------------------------------------------------
// Laws
// ---------------------------------------------------------------------------

/// A path of plain names is made of them.
proof fn lemma_components(list: Seq<Seq<char>>)
    requires
        plain_names(list),
        list.len() > 0,
    ensures
        pieces(joined(list, seq!['/']), '/') == list,
        components(seq!['/'] + joined(list, seq!['/'])) == list,
    decreases list.len(),
{
    let sep = seq!['/'];
    let p = joined(list, sep);
    let last = list.last();
    let front = list.drop_last();
    assert(plain_name(last));
    lemma_index_cuts(last, '/');
    assert(pieces(last, '/') == seq![last]);
    if list.len() == 1 {
        assert(list == seq![last]);
    } else {
        assert(plain_names(front));
        lemma_components(front);
        law_pieces_in_parts(joined(front, sep), last, '/');
        assert(front + seq![last] == list);
    }
    let none = Seq::<char>::empty();
    law_pieces_in_parts(none, p, '/');
    assert(none + seq!['/'] + p == seq!['/'] + p);
    assert(pieces(none, '/') == seq![none]);
    let pred = |piece: Seq<char>| names(piece);
    Seq::filter_distributes_over_add(seq![none], list, pred);
    let nothing = Seq::<Seq<char>>::empty();
    nothing.lemma_filter_push(none, pred);
    assert(nothing.push(none) == seq![none]);
    assert(nothing.filter(pred) == nothing) by {
        reveal(Seq::filter);
    }
    lemma_all_kept(list);
    assert(Seq::<Seq<char>>::empty() + list == list);
}

proof fn lemma_all_kept(list: Seq<Seq<char>>)
    requires
        plain_names(list),
    ensures
        list.filter(|piece: Seq<char>| names(piece)) == list,
    decreases list.len(),
{
    reveal(Seq::filter);
    if list.len() > 0 {
        let front = list.drop_last();
        assert(plain_names(front));
        assert(plain_name(list.last()));
        lemma_all_kept(front);
        assert(front.push(list.last()) == list);
    }
}

proof fn lemma_past_workspaces(front: Seq<Seq<char>>, tail: Seq<Seq<char>>)
    requires
        !tail.contains("workspaces"@),
    ensures
        past_workspaces(front + seq!["workspaces"@] + tail) == Some(tail),
        past_workspaces(tail) is None,
    decreases tail.len(),
{
    let list = front + seq!["workspaces"@] + tail;
    if tail.len() == 0 {
        assert(list.last() == "workspaces"@);
    } else {
        let rest = tail.drop_last();
        assert(list.last() == tail.last());
        assert(tail.contains(tail.last()));
        assert(list.drop_last() == front + seq!["workspaces"@] + rest);
        assert(!rest.contains("workspaces"@)) by {
            if rest.contains("workspaces"@) {
                let i = rest.index_of("workspaces"@);
                assert(tail[i] == "workspaces"@);
            }
        }
        lemma_past_workspaces(front, rest);
        assert(rest.push(tail.last()) == tail);
    }
}

/// A project in a `workspaces` directory goes by its way down from there, with
/// `_` between the names; the last such directory counts. Any other goes by
/// the name of its own directory.
pub proof fn law_codename(front: Seq<Seq<char>>, tail: Seq<Seq<char>>)
    requires
        plain_names(front),
        plain_names(tail),
        tail.len() > 0,
        !tail.contains("workspaces"@),
    ensures
        codename(
            seq!['/'] + joined(front + seq!["workspaces"@] + tail, seq!['/']),
        ) == joined(tail, "_"@),
        codename(seq!['/'] + joined(tail, seq!['/'])) == tail.last(),
{
    reveal_strlit("workspaces");
    let ws = "workspaces"@;
    let all = front + seq![ws] + tail;
    assert(plain_name(ws)) by {
        assert(ws.len() == 10);
        assert(!ws.contains('/'));
    }
    assert(plain_names(all)) by {
        assert forall|i: int| 0 <= i < all.len() implies plain_name(#[trigger] all[i]) by {
            if i < front.len() {
                assert(all[i] == front[i]);
            } else if i > front.len() {
                assert(all[i] == tail[i - front.len() - 1]);
            }
        }
    }
    lemma_components(all);
    lemma_past_workspaces(front, tail);
    lemma_components(tail);
    let sep = seq!['/'];
    let last = tail.last();
    let p = sep + joined(tail, sep);
    assert(plain_name(last));
    if tail.len() == 1 {
        law_base_is_the_last_name(Seq::<char>::empty(), last);
        assert(Seq::<char>::empty() + sep + last == p);
    } else {
        let dir = sep + joined(tail.drop_last(), sep);
        law_base_is_the_last_name(dir, last);
        assert(dir + sep + last == p);
    }
}

} // verus!
