//! File records and the total order that drives the ranking.
//!
//! A record is ordered lexicographically by the tuple
//! (size, path, name); in practice only the size matters, since paths are
//! distinct, but the full tuple makes the order total, which in turn makes
//! the ranking independent of the order in which files are encountered.

use vstd::prelude::*;
use vstd::relations::total_ordering;

verus! {

/// One regular file seen during a traversal: its byte length, its full
/// path and its base name.
pub struct FileRecord {
    pub size: u64,
    pub path: String,
    pub name: String,
}

/// The mathematical value of a [`FileRecord`].
#[verifier::ext_equal]
pub struct RecordV {
    pub size: u64,
    pub path: Seq<char>,
    pub name: Seq<char>,
}

impl View for FileRecord {
    type V = RecordV;

    open spec fn view(&self) -> RecordV {
        RecordV { size: self.size, path: self.path@, name: self.name@ }
    }
}

impl FileRecord {
    /// Builds an identical record (the fields are cloned).
    pub fn duplicate(&self) -> (r: FileRecord)
        ensures
            r@ == self@,
    {
        let r = FileRecord { size: self.size, path: self.path.clone(), name: self.name.clone() };
        proof {
            assert(r@ =~= self@);
        }
        r
    }
}

/// Lexicographic order on character sequences, by code point.
pub open spec fn chars_le(a: Seq<char>, b: Seq<char>) -> bool
    decreases a.len(),
{
    if a.len() == 0 {
        true
    } else if b.len() == 0 {
        false
    } else if (a[0] as int) < (b[0] as int) {
        true
    } else if (b[0] as int) < (a[0] as int) {
        false
    } else {
        chars_le(a.drop_first(), b.drop_first())
    }
}

/// Strict lexicographic order on character sequences.
pub open spec fn chars_lt(a: Seq<char>, b: Seq<char>) -> bool {
    chars_le(a, b) && a != b
}

pub proof fn lemma_chars_le_reflexive(a: Seq<char>)
    ensures
        chars_le(a, a),
    decreases a.len(),
{
    if a.len() != 0 {
        lemma_chars_le_reflexive(a.drop_first());
    }
}

pub proof fn lemma_chars_le_connected(a: Seq<char>, b: Seq<char>)
    ensures
        chars_le(a, b) || chars_le(b, a),
    decreases a.len(),
{
    if a.len() != 0 && b.len() != 0 && (a[0] as int) == (b[0] as int) {
        lemma_chars_le_connected(a.drop_first(), b.drop_first());
    }
}

pub proof fn lemma_chars_le_antisymmetric(a: Seq<char>, b: Seq<char>)
    requires
        chars_le(a, b),
        chars_le(b, a),
    ensures
        a == b,
    decreases a.len(),
{
    if a.len() == 0 {
        assert(b.len() == 0);
        assert(a =~= b);
    } else {
        assert(b.len() != 0);
        assert((a[0] as int) == (b[0] as int));
        lemma_chars_le_antisymmetric(a.drop_first(), b.drop_first());
        assert forall|i: int| 0 <= i < a.len() implies a[i] == b[i] by {
            if i > 0 {
                assert(a[i] == a.drop_first()[i - 1]);
                assert(b[i] == b.drop_first()[i - 1]);
            }
        }
        assert(a =~= b);
    }
}

pub proof fn lemma_chars_le_transitive(a: Seq<char>, b: Seq<char>, c: Seq<char>)
    requires
        chars_le(a, b),
        chars_le(b, c),
    ensures
        chars_le(a, c),
    decreases a.len(),
{
    if a.len() != 0 && b.len() != 0 && c.len() != 0 {
        if (a[0] as int) == (b[0] as int) && (b[0] as int) == (c[0] as int) {
            lemma_chars_le_transitive(a.drop_first(), b.drop_first(), c.drop_first());
        }
    }
}

/// Record order: by size, then by path, then by name.
pub open spec fn record_le(a: RecordV, b: RecordV) -> bool {
    ||| a.size < b.size
    ||| (a.size == b.size && chars_lt(a.path, b.path))
    ||| (a.size == b.size && a.path == b.path && chars_le(a.name, b.name))
}

/// Descending rank order: `rank_ge()(a, b)` holds when `a` outranks or
/// equals `b`. A sequence sorted by this relation starts with the largest
/// record.
pub open spec fn rank_ge() -> spec_fn(RecordV, RecordV) -> bool {
    |a: RecordV, b: RecordV| record_le(b, a)
}

pub proof fn lemma_record_le_antisymmetric(a: RecordV, b: RecordV)
    requires
        record_le(a, b),
        record_le(b, a),
    ensures
        a == b,
{
    if a.size == b.size {
        if a.path != b.path {
            lemma_chars_le_antisymmetric(a.path, b.path);
        } else {
            lemma_chars_le_antisymmetric(a.name, b.name);
            assert(a =~= b);
        }
    }
}

pub proof fn lemma_record_le_transitive(a: RecordV, b: RecordV, c: RecordV)
    requires
        record_le(a, b),
        record_le(b, c),
    ensures
        record_le(a, c),
{
    if a.size == b.size && b.size == c.size {
        if chars_lt(a.path, b.path) && chars_lt(b.path, c.path) {
            lemma_chars_le_transitive(a.path, b.path, c.path);
            if a.path == c.path {
                lemma_chars_le_antisymmetric(a.path, b.path);
            }
        } else if a.path == b.path && b.path == c.path {
            lemma_chars_le_transitive(a.name, b.name, c.name);
        }
    }
}

pub proof fn lemma_record_le_connected(a: RecordV, b: RecordV)
    ensures
        record_le(a, b) || record_le(b, a),
{
    if a.size == b.size {
        if a.path == b.path {
            lemma_chars_le_connected(a.name, b.name);
        } else {
            lemma_chars_le_connected(a.path, b.path);
        }
    }
}

/// The descending rank order is a total order, so sorting by it gives a
/// unique result for a given multiset of records.
pub proof fn lemma_rank_ge_total_ordering()
    ensures
        total_ordering(rank_ge()),
{
    let r = rank_ge();
    assert forall|x: RecordV| #[trigger] r(x, x) by {
        lemma_chars_le_reflexive(x.name);
    }
    assert forall|x: RecordV, y: RecordV| #[trigger] r(x, y) && #[trigger] r(y, x) implies x == y by {
        lemma_record_le_antisymmetric(x, y);
    }
    assert forall|x: RecordV, y: RecordV, z: RecordV|
        #[trigger] r(x, y) && #[trigger] r(y, z) implies r(x, z) by {
        lemma_record_le_transitive(z, y, x);
    }
    assert forall|x: RecordV, y: RecordV| #[trigger] r(x, y) || #[trigger] r(y, x) by {
        lemma_record_le_connected(x, y);
    }
}

/// Decides the lexicographic order on two strings, character by character.
pub fn str_le(a: &str, b: &str) -> (r: bool)
    ensures
        r == chars_le(a@, b@),
{
    let a_len = a.unicode_len();
    let b_len = b.unicode_len();
    let mut i: usize = 0;
    proof {
        assert(a@.skip(0) =~= a@);
        assert(b@.skip(0) =~= b@);
    }
    loop
        invariant
            i <= a_len,
            i <= b_len,
            a_len == a@.len(),
            b_len == b@.len(),
            chars_le(a@, b@) == chars_le(a@.skip(i as int), b@.skip(i as int)),
        decreases a_len - i,
    {
        if i == a_len {
            return true;
        }
        if i == b_len {
            return false;
        }
        let ca = a.get_char(i);
        let cb = b.get_char(i);
        proof {
            assert((ca as u32) as int == ca as int);
            assert((cb as u32) as int == cb as int);
        }
        if (ca as u32) < (cb as u32) {
            return true;
        }
        if (cb as u32) < (ca as u32) {
            return false;
        }
        proof {
            assert(a@.skip(i as int).drop_first() =~= a@.skip(i as int + 1));
            assert(b@.skip(i as int).drop_first() =~= b@.skip(i as int + 1));
        }
        i = i + 1;
    }
}

impl FileRecord {
    /// Decides the record order: whether `self` ranks at or below `other`.
    pub fn le(&self, other: &FileRecord) -> (r: bool)
        ensures
            r == record_le(self@, other@),
    {
        if self.size != other.size {
            self.size < other.size
        } else if !self.path.eq(&other.path) {
            str_le(self.path.as_str(), other.path.as_str())
        } else {
            str_le(self.name.as_str(), other.name.as_str())
        }
    }
}

} // verus!
