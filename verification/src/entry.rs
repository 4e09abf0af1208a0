//! The domain model: a single entry within a directory, and the order in
//! which entries are displayed.

use std::cmp::Ordering;
use vstd::prelude::*;
use crate::text::{
    chars_less, chars_of, lemma_seq_less_asymmetric, lemma_seq_less_irreflexive,
    lemma_seq_less_total, lemma_seq_less_transitive, lowercase, lowercase_of, seq_less,
};

verus! {

/// A file or directory listed in the current view.
pub struct Entry {
    pub name: String,
    pub is_dir: bool,
    /// Size in bytes; 0 for directories.
    pub size: u64,
    /// Last modification, in whole seconds since the Unix epoch (0 when it is
    /// unknown or earlier than the epoch).
    pub modified: u64,
}

/// Three-way lexicographic comparison of two names.
pub open spec fn name_order(a: Seq<char>, b: Seq<char>) -> Ordering {
    if seq_less(a, b) {
        Ordering::Less
    } else if seq_less(b, a) {
        Ordering::Greater
    } else {
        Ordering::Equal
    }
}

/// The display order: directories first, then the lowercase names, then the
/// names themselves so that names differing only in case keep a fixed order.
pub open spec fn entry_order(left: Entry, right: Entry) -> Ordering {
    if left.is_dir && !right.is_dir {
        Ordering::Less
    } else if !left.is_dir && right.is_dir {
        Ordering::Greater
    } else {
        let by_lowercase = name_order(lowercase_of(left.name@), lowercase_of(right.name@));
        if by_lowercase == Ordering::Equal {
            name_order(left.name@, right.name@)
        } else {
            by_lowercase
        }
    }
}

fn order_names(a: &[char], b: &[char]) -> (r: Ordering)
    ensures
        r == name_order(a@, b@),
{
    if chars_less(a, b) {
        Ordering::Less
    } else if chars_less(b, a) {
        Ordering::Greater
    } else {
        Ordering::Equal
    }
}

/// Ordering used to display entries: directories first, then a
/// case-insensitive name comparison (falling back to a case-sensitive
/// comparison so that names differing only in case remain stable).
pub fn compare(left: &Entry, right: &Entry) -> (r: Ordering)
    ensures
        r == entry_order(*left, *right),
{
    if left.is_dir && !right.is_dir {
        return Ordering::Less;
    }
    if !left.is_dir && right.is_dir {
        return Ordering::Greater;
    }
    let left_lower = chars_of(lowercase(left.name.as_str()).as_str());
    let right_lower = chars_of(lowercase(right.name.as_str()).as_str());
    let by_lowercase = order_names(left_lower.as_slice(), right_lower.as_slice());
    match by_lowercase {
        Ordering::Equal => {
            let left_name = chars_of(left.name.as_str());
            let right_name = chars_of(right.name.as_str());
            order_names(left_name.as_slice(), right_name.as_slice())
        },
        other => other,
    }
}

proof fn lemma_name_order_facts(a: Seq<char>, b: Seq<char>)
    ensures
        (name_order(a, b) == Ordering::Less) == (name_order(b, a) == Ordering::Greater),
        (name_order(a, b) == Ordering::Equal) == (a == b),
{
    lemma_seq_less_asymmetric(a, b);
    lemma_seq_less_asymmetric(b, a);
    lemma_seq_less_total(a, b);
    lemma_seq_less_irreflexive(a);
}

proof fn lemma_name_order_transitive(a: Seq<char>, b: Seq<char>, c: Seq<char>)
    requires
        name_order(a, b) != Ordering::Greater,
        name_order(b, c) != Ordering::Greater,
    ensures
        name_order(a, c) != Ordering::Greater,
        name_order(a, b) == Ordering::Less || name_order(b, c) == Ordering::Less ==> name_order(
            a,
            c,
        ) == Ordering::Less,
{
    lemma_name_order_facts(a, b);
    lemma_name_order_facts(b, c);
    lemma_name_order_facts(a, c);
    if seq_less(a, b) && seq_less(b, c) {
        lemma_seq_less_transitive(a, b, c);
    }
    lemma_seq_less_asymmetric(a, c);
}

/// Swapping the two entries reverses the outcome of `compare`.
pub proof fn lemma_compare_antisymmetric(a: Entry, b: Entry)
    ensures
        (entry_order(a, b) == Ordering::Less) == (entry_order(b, a) == Ordering::Greater),
        (entry_order(a, b) == Ordering::Equal) == (entry_order(b, a) == Ordering::Equal),
{
    lemma_name_order_facts(lowercase_of(a.name@), lowercase_of(b.name@));
    lemma_name_order_facts(a.name@, b.name@);
}

/// Two entries compare equal exactly when they are of the same kind and carry
/// the same name: names that differ only in case are never tied.
pub proof fn lemma_compare_equal_iff_same_name(a: Entry, b: Entry)
    ensures
        (entry_order(a, b) == Ordering::Equal) == (a.is_dir == b.is_dir && a.name@ == b.name@),
{
    lemma_name_order_facts(lowercase_of(a.name@), lowercase_of(b.name@));
    lemma_name_order_facts(a.name@, b.name@);
}

/// Every directory sorts before every file.
pub proof fn lemma_directories_first(dir: Entry, file: Entry)
    requires
        dir.is_dir,
        !file.is_dir,
    ensures
        entry_order(dir, file) == Ordering::Less,
        entry_order(file, dir) == Ordering::Greater,
{
}

/// `compare` orders entries transitively: if `a` comes no later than `b` and
/// `b` no later than `c`, then `a` comes no later than `c`, and strictly
/// earlier when either step is strict.
pub proof fn lemma_compare_transitive(a: Entry, b: Entry, c: Entry)
    requires
        entry_order(a, b) != Ordering::Greater,
        entry_order(b, c) != Ordering::Greater,
    ensures
        entry_order(a, c) != Ordering::Greater,
        entry_order(a, b) == Ordering::Less || entry_order(b, c) == Ordering::Less ==> entry_order(
            a,
            c,
        ) == Ordering::Less,
{
    let (la, lb, lc) = (lowercase_of(a.name@), lowercase_of(b.name@), lowercase_of(c.name@));
    lemma_name_order_facts(la, lb);
    lemma_name_order_facts(lb, lc);
    lemma_name_order_facts(la, lc);
    lemma_name_order_facts(a.name@, b.name@);
    lemma_name_order_facts(b.name@, c.name@);
    lemma_name_order_facts(a.name@, c.name@);
    if a.is_dir == b.is_dir && b.is_dir == c.is_dir {
        lemma_name_order_transitive(la, lb, lc);
        if name_order(la, lb) == Ordering::Equal && name_order(lb, lc) == Ordering::Equal {
            lemma_name_order_transitive(a.name@, b.name@, c.name@);
        }
    }
}

/// `a` is displayed no later than `b`.
pub open spec fn precedes_or_ties(a: Entry, b: Entry) -> bool {
    entry_order(a, b) != Ordering::Greater
}

/// Whether `a` is displayed strictly after `b`.
pub fn comes_after(a: &Entry, b: &Entry) -> (r: bool)
    ensures
        r == !precedes_or_ties(*a, *b),
{
    match compare(a, b) {
        Ordering::Greater => true,
        _ => false,
    }
}

/// The display order is total and transitive.
pub proof fn lemma_display_order_total_and_transitive(a: Entry, b: Entry, c: Entry)
    ensures
        precedes_or_ties(a, b) || precedes_or_ties(b, a),
        precedes_or_ties(a, b) && precedes_or_ties(b, c) ==> precedes_or_ties(a, c),
{
    lemma_compare_antisymmetric(a, b);
    if precedes_or_ties(a, b) && precedes_or_ties(b, c) {
        lemma_compare_transitive(a, b, c);
    }
}

} // verus!
