//! Stable ordering of records by a name, in code-point order.
use crate::text::{chars_lt, lemma_chars_lt_total, lemma_chars_lt_transitive, str_lt};
use vstd::prelude::*;

verus! {

broadcast use vstd::seq_lib::group_to_multiset_ensures;

/// Where a record named `name` goes in `s`: after every record whose name
/// does not sort after it.
pub open spec fn upper_bound<A>(s: Seq<A>, key: spec_fn(A) -> Seq<char>, name: Seq<char>) -> nat
    decreases s.len(),
{
    if s.len() == 0 {
        0
    } else if chars_lt(name, key(s[0])) {
        0
    } else {
        1 + upper_bound(s.drop_first(), key, name)
    }
}

/// `s` with `x` inserted after the records whose names do not sort after
/// its name.
pub open spec fn insert_by_name<A>(s: Seq<A>, key: spec_fn(A) -> Seq<char>, x: A) -> Seq<A> {
    s.insert(upper_bound(s, key, key(x)) as int, x)
}

/// The stable sort of `s` by name: records with equal names keep their
/// relative order.
pub open spec fn sort_by_name<A>(s: Seq<A>, key: spec_fn(A) -> Seq<char>) -> Seq<A>
    decreases s.len(),
{
    if s.len() == 0 {
        s
    } else {
        insert_by_name(sort_by_name(s.drop_last(), key), key, s.last())
    }
}

/// The names of `s` never decrease.
pub open spec fn names_sorted<A>(s: Seq<A>, key: spec_fn(A) -> Seq<char>) -> bool {
    forall|i: int, j: int| 0 <= i < j < s.len() ==> !chars_lt(#[trigger] key(s[j]), #[trigger] key(s[i]))
}

/// The insertion point of `name` follows every record whose name does not
/// sort after it, and precedes the first that does.
pub proof fn lemma_upper_bound<A>(s: Seq<A>, key: spec_fn(A) -> Seq<char>, name: Seq<char>)
    ensures
        upper_bound(s, key, name) <= s.len(),
        forall|j: int| 0 <= j < upper_bound(s, key, name) ==> !chars_lt(name, #[trigger] key(s[j])),
        upper_bound(s, key, name) < s.len() ==> chars_lt(name, key(s[upper_bound(s, key, name) as int])),
    decreases s.len(),
{
    if s.len() > 0 && !chars_lt(name, key(s[0])) {
        lemma_upper_bound(s.drop_first(), key, name);
        assert forall|j: int| 0 <= j < upper_bound(s, key, name) implies !chars_lt(
            name,
            #[trigger] key(s[j]),
        ) by {
            if j > 0 {
                assert(s[j] == s.drop_first()[j - 1]);
            }
        }
        if upper_bound(s, key, name) < s.len() {
            assert(s[upper_bound(s, key, name) as int] == s.drop_first()[upper_bound(
                s.drop_first(),
                key,
                name,
            ) as int]);
        }
    }
}

/// Inserting by name keeps a sorted sequence sorted and adds one record.
pub proof fn lemma_insert_by_name<A>(s: Seq<A>, key: spec_fn(A) -> Seq<char>, x: A)
    requires
        names_sorted(s, key),
    ensures
        names_sorted(insert_by_name(s, key, x), key),
        insert_by_name(s, key, x).to_multiset() == s.to_multiset().insert(x),
        insert_by_name(s, key, x).len() == s.len() + 1,
{
    lemma_upper_bound(s, key, key(x));
    let p = upper_bound(s, key, key(x)) as int;
    let r = insert_by_name(s, key, x);
    vstd::seq_lib::to_multiset_insert(s, p, x);
    assert forall|i: int, j: int| 0 <= i < j < r.len() implies !chars_lt(
        #[trigger] key(r[j]),
        #[trigger] key(r[i]),
    ) by {
        if j < p {
            assert(r[i] == s[i] && r[j] == s[j]);
        } else if j == p {
            assert(r[j] == x && r[i] == s[i]);
        } else if i > p {
            assert(r[i] == s[i - 1] && r[j] == s[j - 1]);
        } else if i == p {
            assert(r[i] == x && r[j] == s[j - 1]);
            assert(chars_lt(key(x), key(s[p])));
            if chars_lt(key(s[j - 1]), key(x)) {
                lemma_chars_lt_transitive(key(s[j - 1]), key(x), key(s[p]));
                if j - 1 > p {
                    assert(!chars_lt(key(s[j - 1]), key(s[p])));
                } else {
                    lemma_chars_lt_total(key(s[p]), key(s[p]));
                }
            }
        } else {
            assert(r[i] == s[i] && r[j] == s[j - 1]);
        }
    }
}

/// The stable sort by name is sorted and holds the same records.
pub proof fn lemma_sort_by_name<A>(s: Seq<A>, key: spec_fn(A) -> Seq<char>)
    ensures
        names_sorted(sort_by_name(s, key), key),
        sort_by_name(s, key).to_multiset() == s.to_multiset(),
        sort_by_name(s, key).len() == s.len(),
    decreases s.len(),
{
    if s.len() > 0 {
        lemma_sort_by_name(s.drop_last(), key);
        lemma_insert_by_name(sort_by_name(s.drop_last(), key), key, s.last());
        vstd::seq_lib::to_multiset_build(s.drop_last(), s.last());
        assert(s.drop_last().push(s.last()) =~= s);
    }
}

/// A record of a sequence is one of its stable sort by name, and the other
/// way round.
pub proof fn lemma_sort_by_name_contains<A>(s: Seq<A>, key: spec_fn(A) -> Seq<char>, x: A)
    ensures
        sort_by_name(s, key).contains(x) <==> s.contains(x),
{
    lemma_sort_by_name(s, key);
    vstd::seq_lib::to_multiset_contains(s, x);
    vstd::seq_lib::to_multiset_contains(sort_by_name(s, key), x);
}

/// A string sorts by its own characters.
pub open spec fn string_key() -> spec_fn(String) -> Seq<char> {
    |s: String| s@
}

/// Sorts strings in code-point order.
pub fn sort_strings(strings: Vec<String>) -> (sorted: Vec<String>)
    ensures
        sorted@ == sort_by_name(strings@, string_key()),
{
    let ghost s = strings@;
    let ghost key = string_key();
    let mut rest = strings;
    let mut out: Vec<String> = Vec::new();
    let ghost mut k: int = 0;
    assert(s.take(0) =~= Seq::<String>::empty());
    while rest.len() > 0
        invariant
            0 <= k <= s.len(),
            rest@ == s.skip(k),
            out@ == sort_by_name(s.take(k), key),
            key == string_key(),
        decreases rest@.len(),
    {
        let x = rest.remove(0);
        assert(x == s[k]);
        let ghost name = x@;
        let mut i: usize = 0;
        assert(out@.skip(0) =~= out@);
        while i < out.len() && !str_lt(x.as_str(), out[i].as_str())
            invariant
                i <= out@.len(),
                name == x@,
                key == string_key(),
                upper_bound(out@, key, name) == i + upper_bound(out@.skip(i as int), key, name),
            decreases out@.len() - i,
        {
            assert(out@.skip(i as int).drop_first() =~= out@.skip(i + 1));
            i += 1;
        }
        proof {
            if i == out@.len() {
                assert(out@.skip(i as int).len() == 0);
            }
        }
        out.insert(i, x);
        proof {
            let t = s.take(k + 1);
            assert(t.drop_last() =~= s.take(k));
            assert(t.last() == x);
            assert(out@ == insert_by_name(sort_by_name(s.take(k), key), key, x));
            k = k + 1;
            assert(rest@ =~= s.skip(k));
        }
    }
    assert(s.take(k) =~= s);
    out
}

} // verus!
