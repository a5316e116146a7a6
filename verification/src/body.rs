//! The body of a poll response: the changed paths of one event, joined by commas.

use vstd::prelude::*;
use vstd::string::*;

verus! {

/// The texts of a sequence of strings, in the same order.
pub open spec fn texts(strings: Seq<String>) -> Seq<Seq<char>> {
    strings.map_values(|s: String| s@)
}

/// The parts written one after another, with one comma between each two
/// neighbours and none before the first or after the last.
pub open spec fn comma_joined(parts: Seq<Seq<char>>) -> Seq<char>
    decreases parts.len(),
{
    if parts.len() == 0 {
        Seq::empty()
    } else if parts.len() == 1 {
        parts[0]
    } else {
        comma_joined(parts.drop_last()) + seq![','] + parts.last()
    }
}

/// Joining keeps the order of the parts and puts exactly one comma between
/// neighbours: two runs of parts put end to end join to the first run
/// joined, one comma, and the second run joined. No comma stands before the
/// first part or behind the last.
pub proof fn lemma_comma_joined_concat(front: Seq<Seq<char>>, back: Seq<Seq<char>>)
    requires
        front.len() > 0,
        back.len() > 0,
    ensures
        comma_joined(front + back) == comma_joined(front) + seq![','] + comma_joined(back),
    decreases back.len(),
{
    let all = front + back;
    assert(all.last() == back.last());
    if back.len() == 1 {
        assert(all.drop_last() =~= front);
    } else {
        lemma_comma_joined_concat(front, back.drop_last());
        assert(all.drop_last() =~= front + back.drop_last());
        assert(comma_joined(all) =~= comma_joined(front) + seq![','] + comma_joined(back));
    }
}

/// Joins the paths of one change event into a response body.
pub fn join_paths(paths: &Vec<String>) -> (body: String)
    ensures
        body@ == comma_joined(texts(paths@)),
{
    let mut body = String::new();
    let mut i: usize = 0;
    while i < paths.len()
        invariant
            i <= paths.len(),
            body@ == comma_joined(texts(paths@).take(i as int)),
        decreases paths.len() - i,
    {
        let ghost before = texts(paths@).take(i as int);
        let ghost after = texts(paths@).take(i + 1);
        proof {
            reveal_strlit(",");
            assert(after.drop_last() == before);
            assert(after.last() == paths@[i as int]@);
            assert(",".view() == seq![',']);
        }
        if i > 0 {
            body.append(",");
        }
        body.append(paths[i].as_str());
        i += 1;
    }
    assert(texts(paths@).take(paths.len() as int) == texts(paths@));
    body
}

} // verus!
