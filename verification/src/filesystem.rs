//! What the library makes of the filesystem's answers: the sorted listing of
//! a directory and the textual preview of a file's leading bytes. Reading
//! the directory and the file is left to the caller.

use vstd::prelude::*;
use vstd::multiset::Multiset;
use vstd::utf8::{decode_utf8, valid_utf8};
use crate::entry::{comes_after, lemma_display_order_total_and_transitive, precedes_or_ties, Entry};
use crate::text::push_char;

verus! {

/// Number of leading bytes sampled when previewing a file.
pub const PREVIEW_LIMIT: u64 = 2_000;

/// The synthetic entry that leads to the parent directory.
pub open spec fn is_parent_entry(e: Entry) -> bool {
    &&& e.name@ == seq!['.', '.']
    &&& e.is_dir
    &&& e.size == 0
    &&& e.modified == 0
}

/// `s` lists its entries in display order.
pub open spec fn sorted_for_display(s: Seq<Entry>) -> bool {
    forall|i: int, j: int| 0 <= i < j < s.len() ==> precedes_or_ties(#[trigger] s[i], #[trigger] s[j])
}

/// Entries that `compare` cannot tell apart: same kind, same name.
pub open spec fn same_key(a: Entry, b: Entry) -> bool {
    a.is_dir == b.is_dir && a.name@ == b.name@
}

/// The entries of `s` with the same kind and name as `e`, in their order in `s`.
pub open spec fn with_key_of(s: Seq<Entry>, e: Entry) -> Seq<Entry>
    decreases s.len(),
{
    if s.len() == 0 {
        Seq::empty()
    } else if same_key(s.last(), e) {
        with_key_of(s.drop_last(), e).push(s.last())
    } else {
        with_key_of(s.drop_last(), e)
    }
}

proof fn lemma_with_key_concat(a: Seq<Entry>, b: Seq<Entry>, e: Entry)
    ensures
        with_key_of(a + b, e) == with_key_of(a, e) + with_key_of(b, e),
    decreases b.len(),
{
    if b.len() == 0 {
        assert(a + b == a);
    } else {
        lemma_with_key_concat(a, b.drop_last(), e);
        assert((a + b).drop_last() == a + b.drop_last());
        assert((a + b).last() == b.last());
    }
}

proof fn lemma_with_key_reverse(s: Seq<Entry>, e: Entry)
    ensures
        with_key_of(s.reverse(), e) == with_key_of(s, e).reverse(),
    decreases s.len(),
{
    if s.len() > 0 {
        lemma_with_key_reverse(s.drop_last(), e);
        assert(s.reverse() == seq![s.last()] + s.drop_last().reverse());
        lemma_with_key_concat(seq![s.last()], s.drop_last().reverse(), e);
        assert(seq![s.last()].drop_last() == Seq::<Entry>::empty());
        assert(seq![s.last()].last() == s.last());
        assert(with_key_of(Seq::<Entry>::empty(), e) == Seq::<Entry>::empty());
        let w = with_key_of(s.drop_last(), e);
        if same_key(s.last(), e) {
            assert(with_key_of(seq![s.last()], e) == seq![s.last()]);
            assert(w.push(s.last()).reverse() == seq![s.last()] + w.reverse());
        } else {
            assert(with_key_of(seq![s.last()], e) == Seq::<Entry>::empty());
            assert(Seq::<Entry>::empty() + w.reverse() == w.reverse());
        }
    }
}

proof fn lemma_with_key_none(s: Seq<Entry>, e: Entry)
    requires
        forall|i: int| 0 <= i < s.len() ==> !same_key(#[trigger] s[i], e),
    ensures
        with_key_of(s, e) == Seq::<Entry>::empty(),
    decreases s.len(),
{
    if s.len() > 0 {
        assert(!same_key(s[s.len() - 1], e));
        assert forall|i: int| 0 <= i < s.drop_last().len() implies !same_key(
            #[trigger] s.drop_last()[i],
            e,
        ) by {
            assert(s.drop_last()[i] == s[i]);
        }
        lemma_with_key_none(s.drop_last(), e);
    }
}

/// While merging `l0` and `r0`: the entries of each key, read from what is
/// left of both and then from the taken ones back to front, are those of
/// `l0` followed by those of `r0`.
#[verifier::opaque]
spec fn merge_keeps_keys(
    a: Seq<Entry>,
    b: Seq<Entry>,
    taken: Seq<Entry>,
    l0: Seq<Entry>,
    r0: Seq<Entry>,
) -> bool {
    forall|e: Entry| #[trigger]
        with_key_of(a, e) + with_key_of(b, e) + with_key_of(taken, e).reverse() == with_key_of(
            l0,
            e,
        ) + with_key_of(r0, e)
}

proof fn lemma_merge_take_right(
    a: Seq<Entry>,
    b: Seq<Entry>,
    taken: Seq<Entry>,
    l0: Seq<Entry>,
    r0: Seq<Entry>,
)
    requires
        b.len() > 0,
        merge_keeps_keys(a, b, taken, l0, r0),
    ensures
        merge_keeps_keys(a, b.drop_last(), taken.push(b.last()), l0, r0),
{
    reveal(merge_keeps_keys);
    let x = b.last();
    assert forall|e: Entry| #[trigger]
        with_key_of(a, e) + with_key_of(b.drop_last(), e) + with_key_of(taken.push(x), e).reverse()
            == with_key_of(l0, e) + with_key_of(r0, e) by {
        assert(with_key_of(a, e) + with_key_of(b, e) + with_key_of(taken, e).reverse()
            == with_key_of(l0, e) + with_key_of(r0, e));
        assert(taken.push(x).drop_last() == taken);
        let wa = with_key_of(a, e);
        let wb = with_key_of(b.drop_last(), e);
        let wd = with_key_of(taken, e);
        if same_key(x, e) {
            assert(wd.push(x).reverse() == seq![x] + wd.reverse());
            assert(wa + wb.push(x) + wd.reverse() == wa + wb + (seq![x] + wd.reverse()));
        }
    }
}

proof fn lemma_merge_take_left(
    a: Seq<Entry>,
    b: Seq<Entry>,
    taken: Seq<Entry>,
    l0: Seq<Entry>,
    r0: Seq<Entry>,
)
    requires
        a.len() > 0,
        sorted_for_display(b),
        b.len() > 0 ==> !precedes_or_ties(a.last(), b.last()),
        merge_keeps_keys(a, b, taken, l0, r0),
    ensures
        merge_keeps_keys(a.drop_last(), b, taken.push(a.last()), l0, r0),
{
    reveal(merge_keeps_keys);
    let x = a.last();
    assert forall|e: Entry| #[trigger]
        with_key_of(a.drop_last(), e) + with_key_of(b, e) + with_key_of(taken.push(x), e).reverse()
            == with_key_of(l0, e) + with_key_of(r0, e) by {
        assert(with_key_of(a, e) + with_key_of(b, e) + with_key_of(taken, e).reverse()
            == with_key_of(l0, e) + with_key_of(r0, e));
        assert(taken.push(x).drop_last() == taken);
        let wa = with_key_of(a.drop_last(), e);
        let wb = with_key_of(b, e);
        let wd = with_key_of(taken, e);
        if same_key(x, e) {
            // Nothing left in `b` ties with `x`: all of it sorts before `x`.
            assert forall|i: int| 0 <= i < b.len() implies !same_key(#[trigger] b[i], e) by {
                if i < b.len() - 1 {
                    assert(precedes_or_ties(b[i], b.last()));
                }
            }
            lemma_with_key_none(b, e);
            assert(wd.push(x).reverse() == seq![x] + wd.reverse());
            assert(wa.push(x) + wb + wd.reverse() == wa + wb + (seq![x] + wd.reverse()));
        }
    }
}

/// The entry for `..`, prepended to a listing when the directory has a parent.
pub fn parent_entry() -> (e: Entry)
    ensures
        is_parent_entry(e),
{
    let mut name = String::new();
    push_char(&mut name, '.');
    push_char(&mut name, '.');
    assert(name@ == seq!['.', '.']);
    Entry { name, is_dir: true, size: 0, modified: 0 }
}

/// The entry for a discovered file or directory; directories are listed with
/// size 0.
pub fn discovered_entry(name: String, is_dir: bool, len: u64, modified: u64) -> (e: Entry)
    ensures
        e.name == name,
        e.is_dir == is_dir,
        e.size == (if is_dir { 0 } else { len }),
        e.modified == modified,
{
    Entry { name, is_dir, size: if is_dir { 0 } else { len }, modified }
}

/// Merges two listings that are each in display order; on ties the entries
/// of `left` come first.
fn merge_sorted(left: Vec<Entry>, right: Vec<Entry>) -> (r: Vec<Entry>)
    requires
        sorted_for_display(left@),
        sorted_for_display(right@),
    ensures
        sorted_for_display(r@),
        r@.to_multiset() == left@.to_multiset().add(right@.to_multiset()),
        forall|e: Entry| #[trigger]
            with_key_of(r@, e) == with_key_of(left@, e) + with_key_of(right@, e),
{
    broadcast use vstd::multiset::group_multiset_axioms;
    broadcast use vstd::seq_lib::group_to_multiset_ensures;

    let mut a = left;
    let mut b = right;
    let ghost total = left@.to_multiset().add(right@.to_multiset());
    let ghost l0 = left@;
    let ghost r0 = right@;
    // Built from the back: the largest remaining entry is taken first.
    let mut descending: Vec<Entry> = Vec::new();
    proof {
        vstd::multiset::lemma_multiset_empty_len(descending@.to_multiset());
        assert(descending@.to_multiset().add(a@.to_multiset()) =~= a@.to_multiset());
        reveal(merge_keeps_keys);
        assert forall|e: Entry| #[trigger]
            with_key_of(a@, e) + with_key_of(b@, e) + with_key_of(descending@, e).reverse()
                == with_key_of(l0, e) + with_key_of(r0, e) by {
            assert(with_key_of(descending@, e).reverse() == Seq::<Entry>::empty());
            assert(with_key_of(a@, e) + with_key_of(b@, e) + Seq::<Entry>::empty() == with_key_of(
                a@,
                e,
            ) + with_key_of(b@, e));
        }
    }
    while a.len() > 0 || b.len() > 0
        invariant
            sorted_for_display(a@),
            sorted_for_display(b@),
            forall|i: int, j: int|
                0 <= i < j < descending@.len() ==> precedes_or_ties(
                    #[trigger] descending@[j],
                    #[trigger] descending@[i],
                ),
            forall|i: int, j: int|
                0 <= i < a@.len() && 0 <= j < descending@.len() ==> precedes_or_ties(
                    #[trigger] a@[i],
                    #[trigger] descending@[j],
                ),
            forall|i: int, j: int|
                0 <= i < b@.len() && 0 <= j < descending@.len() ==> precedes_or_ties(
                    #[trigger] b@[i],
                    #[trigger] descending@[j],
                ),
            descending@.to_multiset().add(a@.to_multiset()).add(b@.to_multiset()) == total,
            merge_keeps_keys(a@, b@, descending@, l0, r0),
        decreases a.len() + b.len(),
    {
        let take_right = a.len() == 0 || (b.len() > 0 && !comes_after(
            &a[a.len() - 1],
            &b[b.len() - 1],
        ));
        let ghost a0 = a@;
        let ghost b0 = b@;
        let ghost d0 = descending@;
        if take_right {
            let x = b.pop().unwrap();
            proof {
                assert(x == b0.last());
                assert forall|i: int| 0 <= i < a@.len() implies precedes_or_ties(
                    #[trigger] a@[i],
                    x,
                ) by {
                    lemma_display_order_total_and_transitive(a@[i], a0.last(), x);
                }
                assert forall|i: int| 0 <= i < b@.len() implies precedes_or_ties(
                    #[trigger] b@[i],
                    x,
                ) by {
                    assert(b@[i] == b0[i]);
                }
                assert(b0 == b@.push(x));
                vstd::seq_lib::to_multiset_build(b@, x);
                vstd::seq_lib::to_multiset_build(d0, x);
            }
            descending.push(x);
            proof {
                assert(descending@ == d0.push(x));
                assert(descending@.to_multiset().add(a@.to_multiset()).add(b@.to_multiset())
                    =~= d0.to_multiset().add(a@.to_multiset()).add(b0.to_multiset()));
                lemma_merge_take_right(a@, b0, d0, l0, r0);
            }
        } else {
            let x = a.pop().unwrap();
            proof {
                assert(x == a0.last());
                lemma_display_order_total_and_transitive(a0.last(), b0.last(), a0.last());
                assert forall|i: int| 0 <= i < b@.len() implies precedes_or_ties(
                    #[trigger] b@[i],
                    x,
                ) by {
                    lemma_display_order_total_and_transitive(b@[i], b0.last(), x);
                }
                assert forall|i: int| 0 <= i < a@.len() implies precedes_or_ties(
                    #[trigger] a@[i],
                    x,
                ) by {
                    assert(a@[i] == a0[i]);
                }
                assert(a0 == a@.push(x));
                vstd::seq_lib::to_multiset_build(a@, x);
                vstd::seq_lib::to_multiset_build(d0, x);
            }
            descending.push(x);
            proof {
                assert(descending@ == d0.push(x));
                assert(descending@.to_multiset().add(a@.to_multiset()).add(b@.to_multiset())
                    =~= d0.to_multiset().add(a0.to_multiset()).add(b@.to_multiset()));
                lemma_merge_take_left(a0, b@, d0, l0, r0);
            }
        }
    }
    proof {
        vstd::multiset::lemma_multiset_empty_len(a@.to_multiset());
        vstd::multiset::lemma_multiset_empty_len(b@.to_multiset());
        vstd::multiset::lemma_multiset_empty_len(Seq::<Entry>::empty().to_multiset());
    }
    assert(a@.to_multiset() =~= Multiset::empty());
    assert(b@.to_multiset() =~= Multiset::empty());
    let ghost d = descending@;
    let mut r: Vec<Entry> = Vec::new();
    while descending.len() > 0
        invariant
            descending@ == d.take(descending@.len() as int),
            descending@.len() <= d.len(),
            r@.len() + descending@.len() == d.len(),
            forall|i: int| 0 <= i < r@.len() ==> #[trigger] r@[i] == d[d.len() - 1 - i],
        decreases descending.len(),
    {
        let x = descending.pop().unwrap();
        proof {
            assert(descending@ == d.take(descending@.len() as int));
        }
        r.push(x);
    }
    assert(r@ == d.reverse());
    proof {
        assert forall|e: Entry| #[trigger]
            with_key_of(r@, e) == with_key_of(l0, e) + with_key_of(r0, e) by {
            lemma_with_key_reverse(d, e);
            reveal(merge_keeps_keys);
            assert(with_key_of(a@, e) + with_key_of(b@, e) + with_key_of(d, e).reverse()
                == with_key_of(l0, e) + with_key_of(r0, e));
            assert(with_key_of(a@, e) == Seq::<Entry>::empty());
            assert(with_key_of(b@, e) == Seq::<Entry>::empty());
            assert(Seq::<Entry>::empty() + Seq::<Entry>::empty() + with_key_of(d, e).reverse()
                == with_key_of(d, e).reverse());
        }
        d.lemma_reverse_to_multiset();
        assert forall|i: int, j: int| 0 <= i < j < r@.len() implies precedes_or_ties(
            #[trigger] r@[i],
            #[trigger] r@[j],
        ) by {
            assert(r@[i] == d[d.len() - 1 - i]);
            assert(r@[j] == d[d.len() - 1 - j]);
        }
    }
    r
}

/// `entries` in display order (see [`crate::entry::compare`]), by merge sort.
pub fn sort_entries(entries: Vec<Entry>) -> (r: Vec<Entry>)
    ensures
        sorted_for_display(r@),
        r@.to_multiset() == entries@.to_multiset(),
        forall|e: Entry| #[trigger] with_key_of(r@, e) == with_key_of(entries@, e),
    decreases entries@.len(),
{
    if entries.len() <= 1 {
        return entries;
    }
    let ghost original = entries@;
    let mut left = entries;
    let right = left.split_off(left.len() / 2);
    proof {
        assert(original == left@ + right@);
        vstd::seq_lib::lemma_multiset_commutative(left@, right@);
    }
    let ghost l0 = left@;
    let ghost r0 = right@;
    let left = sort_entries(left);
    let right = sort_entries(right);
    let merged = merge_sorted(left, right);
    proof {
        assert forall|e: Entry| #[trigger]
            with_key_of(merged@, e) == with_key_of(original, e) by {
            lemma_with_key_concat(l0, r0, e);
        }
    }
    merged
}

/// The entries of a listing after the `..` entry, if it has one.
pub open spec fn listed_entries(listing: Seq<Entry>, has_parent: bool) -> Seq<Entry> {
    if has_parent {
        listing.skip(1)
    } else {
        listing
    }
}

/// The listing of a directory: `..` first when the directory has a parent,
/// then the discovered entries in display order.
pub fn arrange_listing(has_parent: bool, discovered: Vec<Entry>) -> (r: Vec<Entry>)
    ensures
        has_parent ==> r@.len() == discovered@.len() + 1 && is_parent_entry(r@[0]),
        !has_parent ==> r@.len() == discovered@.len(),
        sorted_for_display(listed_entries(r@, has_parent)),
        listed_entries(r@, has_parent).to_multiset() == discovered@.to_multiset(),
        forall|e: Entry|
            with_key_of(listed_entries(r@, has_parent), e) == #[trigger] with_key_of(
                discovered@,
                e,
            ),
{
    let mut entries: Vec<Entry> = Vec::new();
    if has_parent {
        entries.push(parent_entry());
    }
    let ghost head = entries@;
    let mut sorted = sort_entries(discovered);
    let ghost sorted_view = sorted@;
    entries.append(&mut sorted);
    assert(entries@.skip(head.len() as int) == sorted_view);
    assert(entries@.skip(0) == entries@);
    proof {
        vstd::seq_lib::to_multiset_len(discovered@);
        vstd::seq_lib::to_multiset_len(sorted_view);
    }
    entries
}

/// Name for what `String::from_utf8_lossy` makes of the given bytes.
pub uninterp spec fn lossy_utf8(bytes: Seq<u8>) -> Seq<char>;

/// `bytes` decoded as UTF-8, invalid sequences replaced.
///
/// Calls `String::from_utf8_lossy`. Its documentation says that valid UTF-8
/// comes back as the string it encodes, which the contract states; what
/// replaces invalid sequences is left to the name `lossy_utf8`.
#[verifier::external_body]
fn decode_lossy(bytes: &[u8]) -> (r: String)
    ensures
        r@ == lossy_utf8(bytes@),
        valid_utf8(bytes@) ==> r@ == decode_utf8(bytes@),
{
    String::from_utf8_lossy(bytes).into_owned()
}

/// The textual preview of a file whose leading bytes are `sample`: `None`
/// when the sample contains a NUL byte (the file looks binary), else the
/// sample decoded as UTF-8 with invalid sequences replaced.
pub fn preview_text(sample: &[u8]) -> (r: Option<String>)
    ensures
        sample@.contains(0u8) ==> r is None,
        !sample@.contains(0u8) ==> (r matches Some(text) && text@ == lossy_utf8(sample@)),
        !sample@.contains(0u8) && valid_utf8(sample@) ==> (r matches Some(text) && text@
            == decode_utf8(sample@)),
{
    let mut i: usize = 0;
    while i < sample.len()
        invariant
            i <= sample.len(),
            forall|k: int| 0 <= k < i ==> sample@[k] != 0u8,
        decreases sample.len() - i,
    {
        if sample[i] == 0 {
            assert(sample@[i as int] == 0u8);
            return None;
        }
        i = i + 1;
    }
    Some(decode_lossy(sample))
}

} // verus!
