//! Following growing files: which files are followed, and from where.
use vstd::prelude::*;

use crate::collections::{key_texts, GroupCounts};
use crate::groups::Group;
use crate::order::{list_lt, text_lt};
use crate::status::byte_width;
use crate::text::{list_of_one, opt_view, stripped_end, strip_end, string_of, to_chars, views};

verus! {

/// The line that a reader of a growing file shows: complete lines without their
/// end, and nothing of a line that is still being written.
pub open spec fn tailed(line: Seq<char>) -> Option<Seq<char>> {
    if line.len() > 0 && line.last() == '\n' {
        Some(stripped_end(stripped_end(line, '\n'), '\r'))
    } else {
        None
    }
}

/// The line that a reader of a growing file shows.
pub fn tail_line(line: &str) -> (r: Option<String>)
    ensures
        opt_view(r) == tailed(line@),
{
    let v = to_chars(line);
    let n: usize = v.len();
    if n > 0 && v[n - 1] == '\n' {
        let a = strip_end(&v, '\n');
        let b = strip_end(&a, '\r');
        Some(string_of(&b))
    } else {
        None
    }
}

/// The files that are followed, each with the offset of what was not shown yet.
pub struct Follower {
    pub places: GroupCounts,
}

/// The offset to read a file from, among `places`; the start for a file that is
/// not followed.
pub open spec fn place_in(places: Map<Group, u64>, path: Seq<char>) -> int {
    if places.dom().contains(seq![path]) {
        places[seq![path]] as int
    } else {
        0
    }
}

/// The places of the first `n` files at their ends.
pub open spec fn at_their_ends(paths: Seq<Seq<char>>, sizes: Seq<u64>, n: int) -> Map<Group, u64>
    decreases n,
{
    if n <= 0 {
        Map::empty()
    } else {
        at_their_ends(paths, sizes, n - 1).insert(seq![paths[n - 1]], sizes[n - 1])
    }
}

/// The places with those of the first `n` files that were not followed yet, at
/// their starts.
pub open spec fn discovered(places: Map<Group, u64>, paths: Seq<Seq<char>>, n: int) -> Map<
    Group,
    u64,
>
    decreases n,
{
    if n <= 0 {
        places
    } else {
        let front = discovered(places, paths, n - 1);
        if front.dom().contains(seq![paths[n - 1]]) {
            front
        } else {
            front.insert(seq![paths[n - 1]], 0)
        }
    }
}

impl Follower {
    /// Every key is one path.
    pub open spec fn wf(&self) -> bool {
        &&& self.places.wf()
        &&& forall|g: Group| #[trigger] self.places@.dom().contains(g) ==> g.len() == 1
    }

    /// Follows files from their ends, so that only new lines are shown.
    pub fn new(paths: &Vec<String>, sizes: &Vec<u64>) -> (r: Follower)
        requires
            paths@.len() == sizes@.len(),
        ensures
            r.wf(),
            r.places@ == at_their_ends(views(paths@), sizes@, paths@.len() as int),
    {
        let ghost pv = views(paths@);
        let mut places = GroupCounts::new();
        let mut i: usize = 0;
        while i < paths.len()
            invariant
                i <= paths@.len(),
                paths@.len() == sizes@.len(),
                pv == views(paths@),
                places.wf(),
                places@ == at_their_ends(pv, sizes@, i as int),
                forall|g: Group| #[trigger] places@.dom().contains(g) ==> g.len() == 1,
            decreases paths@.len() - i,
        {
            let key = list_of_one(paths[i].as_str());
            assert(views(key@) =~= seq![pv[i as int]]);
            places.set_count(&key, sizes[i]);
            i = i + 1;
        }
        Follower { places }
    }

    /// Follows the files that are new from their starts.
    pub fn discover(&mut self, paths: &Vec<String>)
        requires
            old(self).wf(),
        ensures
            final(self).wf(),
            final(self).places@ == discovered(
                old(self).places@,
                views(paths@),
                paths@.len() as int,
            ),
    {
        let ghost pv = views(paths@);
        let ghost before = self.places@;
        let mut i: usize = 0;
        while i < paths.len()
            invariant
                i <= paths@.len(),
                pv == views(paths@),
                self.wf(),
                self.places@ == discovered(before, pv, i as int),
            decreases paths@.len() - i,
        {
            let key = list_of_one(paths[i].as_str());
            assert(views(key@) =~= seq![pv[i as int]]);
            if self.places.get(&key).is_none() {
                self.places.set_count(&key, 0);
            }
            i = i + 1;
        }
    }

    /// The files that are followed, in ascending order of their paths.
    pub fn paths(&self) -> (r: Vec<String>)
        requires
            self.wf(),
        ensures
            forall|a: int, b: int|
                0 <= a < b < r@.len() ==> text_lt(
                    #[trigger] views(r@)[a],
                    #[trigger] views(r@)[b],
                ),
            forall|p: Seq<char>|
                views(r@).contains(p) <==> #[trigger] self.places@.dom().contains(seq![p]),
    {
        let ghost kt = key_texts(self.places.keys@);
        let mut r: Vec<String> = Vec::new();
        let n: usize = self.places.keys.len();
        proof {
            assert forall|k: int| 0 <= k < n implies (#[trigger] kt[k]).len() == 1 by {
                self.places.entry_at(k);
            }
        }
        let mut i: usize = 0;
        while i < n
            invariant
                n == self.places.keys@.len(),
                kt == key_texts(self.places.keys@),
                self.wf(),
                i <= n,
                r@.len() == i,
                forall|k: int| 0 <= k < n ==> (#[trigger] kt[k]).len() == 1,
                forall|k: int| 0 <= k < i ==> seq![(#[trigger] r@[k])@] == kt[k],
            decreases n - i,
        {
            assert(kt[i as int].len() == 1);
            r.push(self.places.keys[i][0].clone());
            assert(seq![r@[i as int]@] =~= kt[i as int]);
            i = i + 1;
        }
        proof {
            let rv = views(r@);
            assert forall|a: int, b: int| 0 <= a < b < rv.len() implies text_lt(
                #[trigger] rv[a],
                #[trigger] rv[b],
            ) by {
                assert(seq![r@[a]@] == kt[a] && seq![r@[b]@] == kt[b]);
                assert(list_lt(kt[a], kt[b]));
                lemma_single_lists(rv[a], rv[b]);
            }
            assert forall|p: Seq<char>|
                rv.contains(p) <==> #[trigger] self.places@.dom().contains(seq![p]) by {
                if rv.contains(p) {
                    let k = choose|k: int| 0 <= k < rv.len() && rv[k] == p;
                    assert(seq![r@[k]@] == kt[k]);
                    self.places.entry_at(k);
                }
                if self.places@.dom().contains(seq![p]) {
                    let k = kt.index_of(seq![p]);
                    assert(kt.contains(seq![p]));
                    assert(seq![r@[k]@] == kt[k]);
                    assert(seq![r@[k]@][0] == seq![p][0]);
                    assert(rv[k] == p);
                }
            }
        }
        r
    }

    /// The offset to read a file from.
    pub fn place_of(&self, path: &str) -> (r: u64)
        requires
            self.wf(),
        ensures
            r == place_in(self.places@, path@),
    {
        let key = list_of_one(path);
        assert(views(key@) =~= seq![path@]);
        match self.places.get(&key) {
            Some(n) => n,
            None => 0,
        }
    }

    /// Takes the next line of a file: what is shown of it. A complete line moves
    /// the file's place behind it; a line that is still being written moves
    /// nothing, and is read again.
    pub fn take_line(&mut self, path: &str, line: &str) -> (r: Option<String>)
        requires
            old(self).wf(),
            place_in(old(self).places@, path@) + byte_width(line@) <= u64::MAX,
        ensures
            final(self).wf(),
            opt_view(r) == tailed(line@),
            final(self).places@ == if tailed(line@) is Some {
                old(self).places@.insert(
                    seq![path@],
                    (place_in(old(self).places@, path@) + byte_width(line@)) as u64,
                )
            } else {
                old(self).places@
            },
    {
        let shown = tail_line(line);
        if shown.is_some() {
            let place: u64 = self.place_of(path);
            let key = list_of_one(path);
            assert(views(key@) =~= seq![path@]);
            let width: usize = line.len();
            self.places.set_count(&key, place + width as u64);
        }
        shown
    }
}

proof fn lemma_single_lists(a: Seq<char>, b: Seq<char>)
    requires
        list_lt(seq![a], seq![b]),
    ensures
        text_lt(a, b),
{
    reveal_with_fuel(list_lt, 2);
    assert(seq![a][0] == a && seq![b][0] == b);
}

/// A file that is followed keeps its place when new ones are discovered, and a
/// file that was not followed is read from its start.
pub proof fn discovery_moves_nothing(
    places: Map<Group, u64>,
    paths: Seq<Seq<char>>,
    n: int,
    path: Seq<char>,
)
    requires
        0 <= n <= paths.len(),
    ensures
        place_in(discovered(places, paths, n), path) == place_in(places, path),
        discovered(places, paths, n).dom().contains(seq![path]) <==> places.dom().contains(
            seq![path],
        ) || paths.take(n).contains(path),
    decreases n,
{
    if n <= 0 {
        assert(!paths.take(n).contains(path));
    } else {
        discovery_moves_nothing(places, paths, n - 1, path);
        discovery_moves_nothing(places, paths, n - 1, paths[n - 1]);
        let front = paths.take(n - 1);
        let whole = paths.take(n);
        assert(whole =~= front.push(paths[n - 1]));
        if whole.contains(path) && path != paths[n - 1] {
            let k = choose|k: int| 0 <= k < whole.len() && whole[k] == path;
            assert(front[k] == path);
        }
        if front.contains(path) {
            let k = choose|k: int| 0 <= k < front.len() && front[k] == path;
            assert(whole[k] == path);
        }
        assert(whole[n - 1] == paths[n - 1]);
        if path != paths[n - 1] {
            assert(seq![path][0] != seq![paths[n - 1]][0]);
        }
    }
}

} // verus!
