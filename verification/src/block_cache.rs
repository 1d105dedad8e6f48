//! Graphs kept across blocks and lengths, and what a block is run on.

use crate::api::{decimal_text, number_text};
use crate::block::ConvShape;
use crate::launch::Operand;
use crate::text::cat3;
use vstd::prelude::*;
use vstd::string::*;

verus! {

/// How many graphs are kept. A graph holds the intermediates of its runs until it is dropped;
/// one segment of speech needs six.
pub const KEEP: usize = 6;

/// Everything about a block but its length.
pub struct BlockKey {
    pub device: u64,
    pub channels: usize,
    /// The two convolutions of each pair.
    pub pairs: Vec<(ConvShape, ConvShape)>,
    pub eps_bits: u32,
}

/// The meaning of a key.
#[verifier::ext_equal]
pub struct KeyView {
    pub device: u64,
    pub channels: usize,
    pub pairs: Seq<(ConvShape, ConvShape)>,
    pub eps_bits: u32,
}

impl View for BlockKey {
    type V = KeyView;

    open spec fn view(&self) -> KeyView {
        KeyView {
            device: self.device,
            channels: self.channels,
            pairs: self.pairs@,
            eps_bits: self.eps_bits,
        }
    }
}

impl BlockKey {
    /// Whether two keys are the same.
    pub fn same(&self, other: &BlockKey) -> (r: bool)
        ensures
            r == (self@ == other@),
    {
        if self.device != other.device || self.channels != other.channels || self.eps_bits
            != other.eps_bits || self.pairs.len() != other.pairs.len() {
            return false;
        }
        let mut i: usize = 0;
        while i < self.pairs.len()
            invariant
                i <= self.pairs@.len() == other.pairs@.len(),
                forall|k: int| 0 <= k < i ==> self.pairs@[k] == other.pairs@[k],
            decreases self.pairs.len() - i,
        {
            let (a, b) = self.pairs[i];
            let (c, d) = other.pairs[i];
            if a.k != c.k || a.dilation != c.dilation || b.k != d.k || b.dilation != d.dilation {
                assert(self.pairs@[i as int] != other.pairs@[i as int]);
                return false;
            }
            i = i + 1;
        }
        assert(self.pairs@ =~= other.pairs@);
        true
    }
}

/// Graphs by key and length, the most recently used last.
pub struct Cache<V> {
    entries: Vec<(BlockKey, usize, V)>,
}

/// The meaning of the entries.
pub open spec fn entries_view<V>(v: Seq<(BlockKey, usize, V)>) -> Seq<((KeyView, usize), V)> {
    v.map_values(|e: (BlockKey, usize, V)| ((e.0@, e.1), e.2))
}

impl<V> View for Cache<V> {
    type V = Seq<((KeyView, usize), V)>;

    closed spec fn view(&self) -> Seq<((KeyView, usize), V)> {
        entries_view(self.entries@)
    }
}

/// The place of the entry of a key, from number `i` on.
pub open spec fn place_from<V>(
    v: Seq<((KeyView, usize), V)>,
    key: (KeyView, usize),
    i: int,
) -> Option<int>
    decreases v.len() - i,
{
    if i < 0 || i >= v.len() {
        None
    } else if v[i].0 == key {
        Some(i)
    } else {
        place_from(v, key, i + 1)
    }
}

/// No key has two entries.
pub open spec fn keys_differ<V>(v: Seq<((KeyView, usize), V)>) -> bool {
    forall|i: int, j: int| 0 <= i < j < v.len() ==> (#[trigger] v[i]).0 != (#[trigger] v[j]).0
}

/// The last entries, few enough that one more can be kept.
pub open spec fn with_room<V>(v: Seq<((KeyView, usize), V)>) -> Seq<((KeyView, usize), V)> {
    if v.len() >= KEEP {
        v.skip(v.len() - KEEP + 1)
    } else {
        v
    }
}

proof fn place_is<V>(v: Seq<((KeyView, usize), V)>, key: (KeyView, usize), i: int)
    requires
        0 <= i,
    ensures
        match place_from(v, key, i) {
            Some(p) => i <= p < v.len() && v[p].0 == key,
            None => forall|k: int| i <= k < v.len() ==> (#[trigger] v[k]).0 != key,
        },
    decreases v.len() - i,
{
    if i < v.len() && v[i].0 != key {
        place_is(v, key, i + 1);
        if place_from(v, key, i) is None {
            assert forall|k: int| i <= k < v.len() implies (#[trigger] v[k]).0 != key by {
                if k > i {
                    assert(i + 1 <= k);
                }
            }
        }
    }
}

impl<V> Cache<V> {
    /// No more entries than are kept, and no key twice.
    #[verifier::type_invariant]
    spec fn tidy(self) -> bool {
        self.entries@.len() <= KEEP && keys_differ(entries_view(self.entries@))
    }

    /// An empty cache.
    pub fn new() -> (r: Cache<V>)
        ensures
            r@ == Seq::<((KeyView, usize), V)>::empty(),
    {
        let entries: Vec<(BlockKey, usize, V)> = Vec::new();
        assert(entries_view(entries@) =~= Seq::<((KeyView, usize), V)>::empty());
        Cache { entries }
    }

    /// How many graphs there are.
    pub fn len(&self) -> (r: usize)
        ensures
            r == self@.len(),
            r <= KEEP,
    {
        proof {
            use_type_invariant(self);
        }
        self.entries.len()
    }

    fn place(&self, key: &BlockKey, len: usize) -> (r: Option<usize>)
        ensures
            match r {
                Some(i) => place_from(self@, (key@, len), 0) == Some(i as int) && i
                    < self.entries@.len(),
                None => place_from(self@, (key@, len), 0) is None,
            },
    {
        let ghost all = self@;
        let mut i: usize = 0;
        while i < self.entries.len()
            invariant
                i <= self.entries@.len(),
                all == entries_view(self.entries@),
                place_from(all, (key@, len), 0) == place_from(all, (key@, len), i as int),
            decreases self.entries.len() - i,
        {
            assert(all[i as int].0 == (self.entries@[i as int].0@, self.entries@[i as int].1));
            if self.entries[i].1 == len && self.entries[i].0.same(key) {
                return Some(i);
            }
            i = i + 1;
        }
        None
    }

    /// The graph of a key and a length, if it is kept. It is the most recently used one then.
    pub fn touch(self, key: &BlockKey, len: usize) -> (r: (Cache<V>, bool))
        ensures
            match place_from(self@, (key@, len), 0) {
                Some(i) => r.1 && r.0@ == self@.remove(i).push(self@[i]),
                None => !r.1 && r.0@ == self@,
            },
    {
        proof {
            use_type_invariant(&self);
            place_is(self@, (key@, len), 0);
        }
        match self.place(key, len) {
            None => (self, false),
            Some(i) => {
                let ghost all = entries_view(self.entries@);
                let mut entries = self.entries;
                let hit = entries.remove(i);
                let ghost h = ((hit.0@, hit.1), hit.2);
                assert(h == all[i as int]);
                assert(entries_view(entries@) =~= all.remove(i as int));
                let ghost rest = entries_view(entries@);
                entries.push(hit);
                proof {
                    let now = entries_view(entries@);
                    assert(now =~= rest.push(h));
                    assert forall|a: int, b: int| 0 <= a < b < now.len() implies (
                    #[trigger] now[a]).0 != (#[trigger] now[b]).0 by {
                        let x = if a < i {
                            a
                        } else {
                            a + 1
                        };
                        let y = if b == now.len() - 1 {
                            i as int
                        } else if b < i {
                            b
                        } else {
                            b + 1
                        };
                        assert(now[a] == all[x] && now[b] == all[y]);
                        assert(x != y);
                    }
                }
                (Cache { entries }, true)
            },
        }
    }

    /// Keeps a new graph, and drops those that were not used for longest where there are too
    /// many.
    pub fn insert(self, key: BlockKey, len: usize, graph: V) -> (r: Cache<V>)
        requires
            place_from(self@, (key@, len), 0) is None,
        ensures
            r@ == with_room(self@).push(((key@, len), graph)),
    {
        proof {
            use_type_invariant(&self);
            place_is(self@, (key@, len), 0);
        }
        let ghost all = entries_view(self.entries@);
        let mut entries = self.entries;
        let ghost mut dropped: int = 0;
        assert(entries_view(entries@) =~= all.skip(0));
        while entries.len() >= KEEP
            invariant
                0 <= dropped <= all.len() <= KEEP,
                entries_view(entries@) == all.skip(dropped),
                dropped > 0 ==> all.len() - dropped + 1 >= KEEP,
            decreases entries.len(),
        {
            let ghost before = entries_view(entries@);
            let gone = entries.remove(0);
            proof {
                assert(entries_view(entries@) =~= before.remove(0));
                assert(before.remove(0) =~= all.skip(dropped + 1));
                dropped = dropped + 1;
            }
        }
        let ghost rest = entries_view(entries@);
        assert(rest =~= with_room(all));
        let ghost v = ((key@, len), graph);
        entries.push((key, len, graph));
        proof {
            let now = entries_view(entries@);
            assert(now =~= rest.push(v));
            assert forall|a: int, b: int| 0 <= a < b < now.len() implies (#[trigger] now[a]).0 != (
            #[trigger] now[b]).0 by {
                assert(now[a] == all[a + dropped]);
                if b < rest.len() {
                    assert(now[b] == all[b + dropped]);
                }
            }
        }
        Cache { entries }
    }

    /// The graph that was used last.
    pub fn latest(&self) -> (r: Option<&V>)
        ensures
            match r {
                Some(g) => self@.len() > 0 && *g == self@.last().1,
                None => self@.len() == 0,
            },
    {
        let n: usize = self.entries.len();
        if n == 0 {
            None
        } else {
            assert(self@.last().1 == self.entries@[n - 1].2);
            Some(&self.entries[n - 1].2)
        }
    }
}

/// After a hit or an insertion the graph that was asked for is the latest one.
pub proof fn the_latest_is_the_one_asked_for<V>(
    v: Seq<((KeyView, usize), V)>,
    key: (KeyView, usize),
    graph: V,
)
    ensures
        match place_from(v, key, 0) {
            Some(i) => v.remove(i).push(v[i]).last().0 == key,
            None => with_room(v).push((key, graph)).last() == (key, graph),
        },
{
    place_is(v, key, 0);
}

/// What is wrong with a run of a block, if anything.
pub open spec fn run_fault(valid: nat, len: nat, convs: nat, pairs: nat) -> Option<Seq<char>> {
    if valid == 0 || valid > len {
        Some(decimal_text(valid) + " valid of "@ + decimal_text(len))
    } else if convs != 2 * pairs {
        Some("two convs per pair"@)
    } else {
        None
    }
}

/// Checks a run of a block on a signal of which the first `valid` samples count.
pub fn check_run(valid: usize, len: usize, convs: usize, pairs: usize) -> (r: Result<(), String>)
    ensures
        match r {
            Ok(_) => run_fault(valid as nat, len as nat, convs as nat, pairs as nat) is None,
            Err(e) => run_fault(valid as nat, len as nat, convs as nat, pairs as nat) == Some(e@),
        },
{
    if valid == 0 || valid > len {
        let a = number_text(valid);
        let b = number_text(len);
        return Err(cat3(a.as_str(), " valid of ", b.as_str()));
    }
    if convs % 2 != 0 || convs / 2 != pairs {
        return Err("two convs per pair".to_owned());
    }
    Ok(())
}

/// What is wrong with the operands of a block beside its input, from number `i` on: the first
/// that cannot be fed decides.
pub open spec fn feed_fault(v: Seq<Operand>, i: int) -> Option<Seq<char>>
    decreases v.len() - i,
{
    if i < 0 || i >= v.len() {
        None
    } else if v[i].start != 0 || !v[i].contiguous {
        Some("mps_snake_block: operands must be contiguous and unoffset"@)
    } else if !v[i].on_device {
        Some("mps_snake_block: operands must be on the device"@)
    } else {
        feed_fault(v, i + 1)
    }
}

/// What is wrong with what a block is fed with, if anything: its input, then the rest in order.
pub open spec fn block_fault(x: Operand, rest: Seq<Operand>) -> Option<Seq<char>> {
    if !x.contiguous || x.start != 0 {
        Some("mps_snake_block: input must be contiguous and unoffset"@)
    } else {
        feed_fault(rest, 0)
    }
}

/// Checks what a block is fed with.
pub fn check_feeds(x: Operand, rest: &Vec<Operand>) -> (r: Result<(), String>)
    ensures
        match r {
            Ok(_) => block_fault(x, rest@) is None,
            Err(e) => block_fault(x, rest@) == Some(e@),
        },
{
    if !x.contiguous || x.start != 0 {
        return Err("mps_snake_block: input must be contiguous and unoffset".to_owned());
    }
    let mut i: usize = 0;
    while i < rest.len()
        invariant
            i <= rest@.len(),
            x.contiguous && x.start == 0,
            block_fault(x, rest@) == feed_fault(rest@, i as int),
        decreases rest.len() - i,
    {
        if rest[i].start != 0 || !rest[i].contiguous {
            return Err("mps_snake_block: operands must be contiguous and unoffset".to_owned());
        }
        if !rest[i].on_device {
            return Err("mps_snake_block: operands must be on the device".to_owned());
        }
        i = i + 1;
    }
    Ok(())
}

/// Which samples of a signal count.
pub fn valid_mask(valid: usize, len: usize) -> (r: Vec<bool>)
    requires
        valid <= len,
    ensures
        r@.len() == len,
        forall|i: int| 0 <= i < len ==> #[trigger] r@[i] == (i < valid),
{
    let mut out: Vec<bool> = Vec::new();
    let mut i: usize = 0;
    while i < len
        invariant
            i <= len,
            out@.len() == i,
            forall|k: int| 0 <= k < i ==> #[trigger] out@[k] == (k < valid),
        decreases len - i,
    {
        out.push(i < valid);
        i = i + 1;
    }
    out
}

} // verus!
