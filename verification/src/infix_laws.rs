//! Where the infixes of a word cut it, for every list of matches.

use crate::pattern::all_matches;
use crate::tokenize::{found, infix_pieces, plain_tokens, texts, TokenizerView};
use crate::tokenize_laws::{joined, pieces_make_up_the_text};
use vstd::prelude::*;

verus! {

/// Whether no piece reaches across the place `at` of the text: some of the pieces, from the first
/// on, make up exactly what stands before it.
pub open spec fn cut_at(pieces: Seq<Seq<char>>, s: Seq<char>, at: int) -> bool {
    exists|k: int|
        0 <= k <= pieces.len() && joined(#[trigger] pieces.take(k)) == s.subrange(0, at)
}

/// Whether what stands from `a` up to `b` is a piece of its own.
pub open spec fn own_piece(pieces: Seq<Seq<char>>, s: Seq<char>, a: int, b: int) -> bool {
    exists|k: int|
        0 <= k < pieces.len() && #[trigger] pieces[k] == s.subrange(a, b) && joined(
            pieces.take(k),
        ) == s.subrange(0, a)
}

proof fn joined_both(a: Seq<Seq<char>>, b: Seq<Seq<char>>)
    ensures
        joined(a + b) == joined(a) + joined(b),
    decreases b.len(),
{
    if b.len() == 0 {
        assert(a + b =~= a);
        assert(joined(a) + joined(b) =~= joined(a));
    } else {
        joined_both(a, b.drop_last());
        assert((a + b).drop_last() =~= a + b.drop_last());
        assert(joined(a + b) =~= joined(a) + joined(b));
    }
}

proof fn joined_single(s: Seq<char>)
    ensures
        joined(seq![s]) == s,
        joined(Seq::<Seq<char>>::empty()) == Seq::<char>::empty(),
{
    let v = seq![s];
    assert(v.drop_last() =~= Seq::<Seq<char>>::empty());
    assert(joined(Seq::<Seq<char>>::empty()) =~= Seq::<char>::empty());
    assert(joined(v) =~= s);
}

/// The number of the piece that match `j` begins, and that of the piece behind it, among the
/// pieces from `start` on.
proof fn match_places(s: Seq<char>, ms: Seq<(nat, nat)>, i: int, start: int, j: int) -> (r: (
    int,
    int,
))
    requires
        0 <= i <= j < ms.len(),
        0 <= start <= s.len(),
        infix_pieces(s, ms, i, start) is Some,
        ms[j].0 > 0,
    ensures
        ({
            let pieces = infix_pieces(s, ms, i, start).unwrap();
            let a = ms[j].0 as int;
            let b = ms[j].1 as int;
            &&& start <= a <= b <= s.len()
            &&& 0 <= r.0 <= r.1 <= pieces.len()
            &&& joined(pieces.take(r.0)) == s.subrange(start, a)
            &&& joined(pieces.take(r.1)) == s.subrange(start, b)
            &&& a < b ==> r.1 == r.0 + 1 && pieces[r.0] == s.subrange(a, b)
        }),
    decreases ms.len() - i,
{
    let pieces = infix_pieces(s, ms, i, start).unwrap();
    let a = ms[i].0 as int;
    let b = ms[i].1 as int;
    if a == 0 {
        match_places(s, ms, i + 1, start, j)
    } else {
        let gap = if start < a {
            seq![s.subrange(start, a)]
        } else {
            Seq::<Seq<char>>::empty()
        };
        let mid = if a < b {
            seq![s.subrange(a, b)]
        } else {
            Seq::<Seq<char>>::empty()
        };
        let rest = infix_pieces(s, ms, i + 1, b).unwrap();
        joined_single(s.subrange(start, a));
        joined_single(s.subrange(a, b));
        assert(joined(gap) =~= s.subrange(start, a));
        assert(joined(mid) =~= s.subrange(a, b));
        joined_both(gap, mid);
        let head = gap + mid;
        assert(joined(head) =~= s.subrange(start, b));
        if i == j {
            assert(pieces.take(gap.len() as int) =~= gap);
            assert(pieces.take(head.len() as int) =~= head);
            (gap.len() as int, head.len() as int)
        } else {
            let (x, y) = match_places(s, ms, i + 1, b, j);
            assert(pieces.take(head.len() + x) =~= head + rest.take(x));
            assert(pieces.take(head.len() + y) =~= head + rest.take(y));
            joined_both(head, rest.take(x));
            joined_both(head, rest.take(y));
            let p = ms[j].0 as int;
            let q = ms[j].1 as int;
            assert(s.subrange(start, b) + s.subrange(b, p) =~= s.subrange(start, p));
            assert(s.subrange(start, b) + s.subrange(b, q) =~= s.subrange(start, q));
            (head.len() + x, head.len() + y)
        }
    }
}

/// Every match that begins behind the start of the text cuts it twice, where it begins and where
/// it ends, and one that is not empty is a piece of its own. That holds of each match, the first
/// and every later one alike.
pub proof fn every_infix_is_cut_out(s: Seq<char>, ms: Seq<(nat, nat)>, j: int)
    requires
        infix_pieces(s, ms, 0, 0) is Some,
        0 <= j < ms.len(),
        ms[j].0 > 0,
    ensures
        ({
            let pieces = infix_pieces(s, ms, 0, 0).unwrap();
            let a = ms[j].0 as int;
            let b = ms[j].1 as int;
            &&& cut_at(pieces, s, a)
            &&& cut_at(pieces, s, b)
            &&& a < b ==> own_piece(pieces, s, a, b)
        }),
{
    let pieces = infix_pieces(s, ms, 0, 0).unwrap();
    let (x, y) = match_places(s, ms, 0, 0, j);
    assert(joined(pieces.take(x)) == s.subrange(0, ms[j].0 as int));
    assert(joined(pieces.take(y)) == s.subrange(0, ms[j].1 as int));
    if ms[j].0 < ms[j].1 {
        assert(pieces[x] == s.subrange(ms[j].0 as int, ms[j].1 as int));
    }
}

/// Whether a match that begins behind the start of the text begins or ends at a place.
pub open spec fn edge_of_a_match(ms: Seq<(nat, nat)>, at: int) -> bool {
    exists|j: int|
        0 <= j < ms.len() && (#[trigger] ms[j]).0 > 0 && (ms[j].0 == at || ms[j].1 == at)
}

proof fn cuts_are_edges(s: Seq<char>, ms: Seq<(nat, nat)>, i: int, start: int, k: int)
    requires
        0 <= i,
        0 <= start <= s.len(),
        infix_pieces(s, ms, i, start) is Some,
        0 < k < infix_pieces(s, ms, i, start).unwrap().len(),
    ensures
        edge_of_a_match(
            ms,
            start + joined(infix_pieces(s, ms, i, start).unwrap().take(k)).len(),
        ),
    decreases ms.len() - i,
{
    let pieces = infix_pieces(s, ms, i, start).unwrap();
    if i < ms.len() {
        let a = ms[i].0 as int;
        let b = ms[i].1 as int;
        if a == 0 {
            cuts_are_edges(s, ms, i + 1, start, k);
        } else {
            let gap = if start < a {
                seq![s.subrange(start, a)]
            } else {
                Seq::<Seq<char>>::empty()
            };
            let mid = if a < b {
                seq![s.subrange(a, b)]
            } else {
                Seq::<Seq<char>>::empty()
            };
            let rest = infix_pieces(s, ms, i + 1, b).unwrap();
            joined_single(s.subrange(start, a));
            joined_single(s.subrange(a, b));
            joined_both(gap, mid);
            let head = gap + mid;
            assert(joined(head).len() == b - start);
            assert(ms[i].0 > 0);
            if k < head.len() {
                assert(pieces.take(k) =~= gap);
            } else if k == head.len() {
                assert(pieces.take(k) =~= head);
            } else {
                let m = k - head.len();
                cuts_are_edges(s, ms, i + 1, b, m);
                assert(pieces.take(k) =~= head + rest.take(m));
                joined_both(head, rest.take(m));
            }
        }
    }
}

proof fn pieces_hold_text(s: Seq<char>, ms: Seq<(nat, nat)>, i: int, start: int, k: int)
    requires
        0 <= i,
        0 <= start <= s.len(),
        infix_pieces(s, ms, i, start) is Some,
        0 <= k < infix_pieces(s, ms, i, start).unwrap().len(),
    ensures
        infix_pieces(s, ms, i, start).unwrap()[k].len() > 0,
    decreases ms.len() - i,
{
    if i < ms.len() {
        let a = ms[i].0 as int;
        let b = ms[i].1 as int;
        if a == 0 {
            pieces_hold_text(s, ms, i + 1, start, k);
        } else {
            let n = (if start < a {
                1int
            } else {
                0int
            }) + (if a < b {
                1int
            } else {
                0int
            });
            if k >= n {
                pieces_hold_text(s, ms, i + 1, b, k - n);
            }
        }
    }
}

/// Nothing but a match cuts a text: wherever one piece ends and the next begins, a match begins or
/// ends. No piece is empty, and together they are the text.
pub proof fn nothing_else_cuts(s: Seq<char>, ms: Seq<(nat, nat)>, k: int)
    requires
        infix_pieces(s, ms, 0, 0) is Some,
        0 <= k < infix_pieces(s, ms, 0, 0).unwrap().len(),
    ensures
        ({
            let pieces = infix_pieces(s, ms, 0, 0).unwrap();
            &&& k > 0 ==> edge_of_a_match(ms, joined(pieces.take(k)).len() as int)
            &&& pieces[k].len() > 0
            &&& joined(pieces) == s
        }),
{
    if k > 0 {
        cuts_are_edges(s, ms, 0, 0, k);
    }
    pieces_hold_text(s, ms, 0, 0, k);
    pieces_make_up_the_text(s, ms, 0, 0);
    assert(s.skip(0) =~= s);
}

/// Matches that follow one another inside the text can always be cut out.
pub proof fn matches_in_order_can_be_cut(s: Seq<char>, ms: Seq<(nat, nat)>, i: int, start: int)
    requires
        0 <= i <= ms.len(),
        0 <= start <= s.len(),
        forall|j: int|
            i <= j < ms.len() ==> start <= (#[trigger] ms[j]).0 <= ms[j].1 <= s.len(),
        forall|j: int, k: int|
            i <= j < k < ms.len() ==> (#[trigger] ms[j]).1 <= (#[trigger] ms[k]).0,
    ensures
        infix_pieces(s, ms, i, start) is Some,
    decreases ms.len() - i,
{
    if i < ms.len() {
        let a = ms[i].0 as int;
        let b = ms[i].1 as int;
        if a == 0 {
            matches_in_order_can_be_cut(s, ms, i + 1, start);
        } else {
            matches_in_order_can_be_cut(s, ms, i + 1, b);
        }
    }
}

impl TokenizerView {
    /// A word that is neither an exception nor an address and has lost its affixes is cut at both
    /// ends of every infix behind its start: each infix is a token of its own, the tokens between
    /// them reach from one to the next, and together they are the word.
    pub proof fn infixes_are_tokens(
        self,
        s: Seq<char>,
        with_specials: bool,
        ms: Seq<Option<(nat, nat)>>,
        j: int,
    )
        requires
            s.len() > 0,
            !(with_specials && self.specials.contains_key(s)),
            !self.is_url(s),
            all_matches(self.infix, s) == Some(ms),
            self.core_tokens(s, with_specials) is Some,
            0 <= j < ms.len(),
            ms[j] is Some,
            ms[j].unwrap().0 > 0,
        ensures
            ({
                let pieces = texts(self.core_tokens(s, with_specials).unwrap());
                let a = ms[j].unwrap().0 as int;
                let b = ms[j].unwrap().1 as int;
                &&& joined(pieces) == s
                &&& cut_at(pieces, s, a)
                &&& cut_at(pieces, s, b)
                &&& a < b ==> own_piece(pieces, s, a, b)
            }),
    {
        let pieces = infix_pieces(s, found(ms), 0, 0).unwrap();
        assert(texts(plain_tokens(pieces)) =~= pieces);
        let k = found_keeps(ms, j);
        every_infix_is_cut_out(s, found(ms), k);
        pieces_make_up_the_text(s, found(ms), 0, 0);
        assert(s.skip(0) =~= s);
    }
}

/// No match is lost among the places where the search gave up.
proof fn found_keeps(v: Seq<Option<(nat, nat)>>, j: int) -> (k: int)
    requires
        0 <= j < v.len(),
        v[j] is Some,
    ensures
        0 <= k < found(v).len(),
        found(v)[k] == v[j].unwrap(),
    decreases v.len(),
{
    if j == v.len() - 1 {
        found(v).len() - 1
    } else {
        assert(v.drop_last()[j] == v[j]);
        found_keeps(v.drop_last(), j)
    }
}

} // verus!
