//! The order in which rows are listed: each row has a text key (compared as
//! `String`s are, character by character) and a numeric key; a descending
//! sort reverses the key order, and rows with equal keys keep their index
//! order, as a stable sort leaves them.
use vstd::prelude::*;
use crate::text::char_rows;

verus! {

/// `a < b` for strings: lexicographic by character (which is the byte order
/// of their UTF-8 encodings), a proper prefix first.
pub open spec fn chars_lt(a: Seq<char>, b: Seq<char>) -> bool
    decreases a.len(),
{
    if a.len() == 0 {
        b.len() > 0
    } else if b.len() == 0 {
        false
    } else if a[0] != b[0] {
        a[0] < b[0]
    } else {
        chars_lt(a.drop_first(), b.drop_first())
    }
}

pub proof fn lemma_chars_lt_irreflexive(a: Seq<char>)
    ensures
        !chars_lt(a, a),
    decreases a.len(),
{
    if a.len() > 0 {
        lemma_chars_lt_irreflexive(a.drop_first());
    }
}

pub proof fn lemma_chars_lt_total(a: Seq<char>, b: Seq<char>)
    ensures
        a != b ==> chars_lt(a, b) || chars_lt(b, a),
        !(chars_lt(a, b) && chars_lt(b, a)),
    decreases a.len(),
{
    if a.len() > 0 && b.len() > 0 && a[0] == b[0] {
        lemma_chars_lt_total(a.drop_first(), b.drop_first());
        if a != b {
            assert(a == seq![a[0]] + a.drop_first());
            assert(b == seq![b[0]] + b.drop_first());
        }
    } else if a.len() == 0 && b.len() == 0 {
        assert(a =~= b);
    }
}

pub proof fn lemma_chars_lt_transitive(a: Seq<char>, b: Seq<char>, c: Seq<char>)
    requires
        chars_lt(a, b),
        chars_lt(b, c),
    ensures
        chars_lt(a, c),
    decreases a.len(),
{
    if a.len() > 0 && b.len() > 0 && c.len() > 0 && a[0] == b[0] && b[0] == c[0] {
        lemma_chars_lt_transitive(a.drop_first(), b.drop_first(), c.drop_first());
    }
}

/// Whether `a < b` as strings.
pub fn chars_less(a: &Vec<char>, b: &Vec<char>) -> (r: bool)
    ensures
        r == chars_lt(a@, b@),
{
    let mut i: usize = 0;
    assert(a@.skip(0) =~= a@);
    assert(b@.skip(0) =~= b@);
    while i < a.len() && i < b.len()
        invariant
            i <= a.len(),
            i <= b.len(),
            chars_lt(a@, b@) == chars_lt(a@.skip(i as int), b@.skip(i as int)),
        decreases a.len() - i,
    {
        let ghost sa = a@.skip(i as int);
        let ghost sb = b@.skip(i as int);
        assert(sa[0] == a@[i as int]);
        assert(sb[0] == b@[i as int]);
        if a[i] != b[i] {
            return a[i] < b[i];
        }
        assert(sa.drop_first() =~= a@.skip(i + 1));
        assert(sb.drop_first() =~= b@.skip(i + 1));
        i = i + 1;
    }
    i < b.len()
}

/// Row `a`'s keys come before row `b`'s.
pub open spec fn key_lt(texts: Seq<Seq<char>>, nums: Seq<u64>, a: int, b: int) -> bool {
    chars_lt(texts[a], texts[b]) || (texts[a] == texts[b] && nums[a] < nums[b])
}

pub open spec fn key_eq(texts: Seq<Seq<char>>, nums: Seq<u64>, a: int, b: int) -> bool {
    texts[a] == texts[b] && nums[a] == nums[b]
}

/// Row `a` is listed before row `b`: by the keys, ascending or descending,
/// and by index where the keys are equal.
pub open spec fn row_before(texts: Seq<Seq<char>>, nums: Seq<u64>, asc: bool, a: int, b: int) -> bool {
    if key_eq(texts, nums, a, b) {
        a < b
    } else if asc {
        key_lt(texts, nums, a, b)
    } else {
        key_lt(texts, nums, b, a)
    }
}

/// Every row of `r` is listed before all the rows after it.
pub open spec fn rows_sorted(texts: Seq<Seq<char>>, nums: Seq<u64>, asc: bool, r: Seq<usize>) -> bool {
    forall|i: int, j: int|
        0 <= i < j < r.len() ==> row_before(texts, nums, asc, #[trigger] r[i] as int, #[trigger] r[j] as int)
}

pub proof fn lemma_key_lt_facts(texts: Seq<Seq<char>>, nums: Seq<u64>, a: int, b: int)
    ensures
        !key_eq(texts, nums, a, b) ==> key_lt(texts, nums, a, b) || key_lt(texts, nums, b, a),
        !(key_lt(texts, nums, a, b) && key_lt(texts, nums, b, a)),
        key_eq(texts, nums, a, b) ==> !key_lt(texts, nums, a, b),
{
    lemma_chars_lt_total(texts[a], texts[b]);
    lemma_chars_lt_irreflexive(texts[a]);
}

pub proof fn lemma_key_lt_transitive(texts: Seq<Seq<char>>, nums: Seq<u64>, a: int, b: int, c: int)
    requires
        key_lt(texts, nums, a, b),
        key_lt(texts, nums, b, c),
    ensures
        key_lt(texts, nums, a, c),
{
    if chars_lt(texts[a], texts[b]) && chars_lt(texts[b], texts[c]) {
        lemma_chars_lt_transitive(texts[a], texts[b], texts[c]);
    }
}

/// `row_before` is a strict total order on row indices.
pub proof fn lemma_row_before_order(
    texts: Seq<Seq<char>>,
    nums: Seq<u64>,
    asc: bool,
    a: int,
    b: int,
    c: int,
)
    ensures
        !row_before(texts, nums, asc, a, a),
        a != b ==> row_before(texts, nums, asc, a, b) || row_before(texts, nums, asc, b, a),
        !(row_before(texts, nums, asc, a, b) && row_before(texts, nums, asc, b, a)),
        row_before(texts, nums, asc, a, b) && row_before(texts, nums, asc, b, c) ==> row_before(
            texts,
            nums,
            asc,
            a,
            c,
        ),
{
    lemma_key_lt_facts(texts, nums, a, b);
    lemma_key_lt_facts(texts, nums, b, c);
    lemma_key_lt_facts(texts, nums, a, c);
    lemma_chars_lt_irreflexive(texts[a]);
    if row_before(texts, nums, asc, a, b) && row_before(texts, nums, asc, b, c) {
        if key_eq(texts, nums, a, b) && key_eq(texts, nums, b, c) {
        } else if key_eq(texts, nums, a, b) {
            if !key_eq(texts, nums, a, c) {
                if asc {
                    assert(key_lt(texts, nums, a, c));
                } else {
                    assert(key_lt(texts, nums, c, a));
                }
            } else {
                lemma_key_lt_facts(texts, nums, c, b);
            }
        } else if key_eq(texts, nums, b, c) {
            if key_eq(texts, nums, a, c) {
                lemma_key_lt_facts(texts, nums, c, a);
            }
        } else if asc {
            lemma_key_lt_transitive(texts, nums, a, b, c);
            lemma_key_lt_facts(texts, nums, a, c);
        } else {
            lemma_key_lt_transitive(texts, nums, c, b, a);
            lemma_key_lt_facts(texts, nums, c, a);
        }
    }
}

/// Whether row `a` is listed before row `b`.
pub fn row_is_before(texts: &Vec<Vec<char>>, nums: &Vec<u64>, asc: bool, a: usize, b: usize) -> (r: bool)
    requires
        a < texts.len(),
        b < texts.len(),
        texts.len() == nums.len(),
    ensures
        r == row_before(char_rows(texts@), nums@, asc, a as int, b as int),
{
    let ghost t = char_rows(texts@);
    assert(t[a as int] == texts@[a as int]@);
    assert(t[b as int] == texts@[b as int]@);
    let lt_ab = chars_less(&texts[a], &texts[b]);
    let lt_ba = chars_less(&texts[b], &texts[a]);
    proof {
        lemma_chars_lt_total(t[a as int], t[b as int]);
    }
    let same_text = !lt_ab && !lt_ba;
    if same_text && nums[a] == nums[b] {
        a < b
    } else if asc {
        lt_ab || (same_text && nums[a] < nums[b])
    } else {
        lt_ba || (same_text && nums[b] < nums[a])
    }
}

/// The rows `items` in listing order (an insertion sort).
pub fn sort_rows(items: &Vec<usize>, texts: &Vec<Vec<char>>, nums: &Vec<u64>, asc: bool) -> (r: Vec<usize>)
    requires
        texts.len() == nums.len(),
        items@.no_duplicates(),
        forall|i: int| 0 <= i < items.len() ==> items@[i] < texts.len(),
    ensures
        r.len() == items.len(),
        forall|x: usize| r@.contains(x) <==> items@.contains(x),
        rows_sorted(char_rows(texts@), nums@, asc, r@),
{
    let ghost t = char_rows(texts@);
    let mut r: Vec<usize> = Vec::new();
    let mut i: usize = 0;
    while i < items.len()
        invariant
            i <= items.len(),
            texts.len() == nums.len(),
            t == char_rows(texts@),
            items@.no_duplicates(),
            forall|k: int| 0 <= k < items.len() ==> items@[k] < texts.len(),
            r.len() == i,
            forall|k: int| 0 <= k < r.len() ==> r@[k] < texts.len(),
            forall|x: usize| r@.contains(x) <==> items@.take(i as int).contains(x),
            rows_sorted(t, nums@, asc, r@),
        decreases items.len() - i,
    {
        let x = items[i];
        assert(!r@.contains(x)) by {
            if r@.contains(x) {
                let k = choose|k: int| 0 <= k < i && items@.take(i as int)[k] == x;
                assert(items@[k] == items@[i as int]);
            }
        }
        let mut p: usize = 0;
        while p < r.len() && !row_is_before(texts, nums, asc, x, r[p])
            invariant
                p <= r.len(),
                x < texts.len(),
                texts.len() == nums.len(),
                t == char_rows(texts@),
                forall|k: int| 0 <= k < r.len() ==> r@[k] < texts.len(),
                forall|k: int| 0 <= k < p ==> !row_before(t, nums@, asc, x as int, r@[k] as int),
            decreases r.len() - p,
        {
            p = p + 1;
        }
        let ghost old_r = r@;
        r.insert(p, x);
        assert forall|a: int, b: int| 0 <= a < b < r.len() implies row_before(
            t,
            nums@,
            asc,
            #[trigger] r@[a] as int,
            #[trigger] r@[b] as int,
        ) by {
            if b < p {
                assert(r@[a] == old_r[a] && r@[b] == old_r[b]);
            } else if b == p {
                assert(r@[a] == old_r[a]);
                lemma_row_before_order(t, nums@, asc, x as int, old_r[a] as int, x as int);
                assert(old_r.contains(old_r[a]));
            } else if a == p {
                assert(r@[b] == old_r[b - 1]);
                lemma_row_before_order(t, nums@, asc, x as int, old_r[p as int] as int, old_r[b - 1] as int);
            } else if a < p {
                assert(r@[a] == old_r[a] && r@[b] == old_r[b - 1]);
            } else {
                assert(r@[a] == old_r[a - 1] && r@[b] == old_r[b - 1]);
            }
        }
        let ghost prev = items@.take(i as int);
        assert(items@.take(i + 1) =~= prev.push(x));
        assert forall|y: usize| r@.contains(y) <==> (old_r.contains(y) || y == x) by {
            if r@.contains(y) {
                let k = choose|k: int| 0 <= k < r.len() && r@[k] == y;
                if k < p {
                    assert(old_r[k] == y);
                } else if k > p {
                    assert(old_r[k - 1] == y);
                }
            }
            if old_r.contains(y) {
                let k = choose|k: int| 0 <= k < old_r.len() && old_r[k] == y;
                if k < p {
                    assert(r@[k] == y);
                } else {
                    assert(r@[k + 1] == y);
                }
            }
            if y == x {
                assert(r@[p as int] == x);
            }
        }
        assert forall|y: usize| prev.push(x).contains(y) <==> (prev.contains(y) || y == x) by {
            if prev.push(x).contains(y) {
                let k = choose|k: int| 0 <= k < prev.len() + 1 && prev.push(x)[k] == y;
                if k < prev.len() {
                    assert(prev[k] == y);
                }
            }
            if prev.contains(y) {
                let k = choose|k: int| 0 <= k < prev.len() && prev[k] == y;
                assert(prev.push(x)[k] == y);
            }
            if y == x {
                assert(prev.push(x)[prev.len() as int] == x);
            }
        }
        assert forall|y: usize| r@.contains(y) <==> items@.take(i + 1).contains(y) by {
            assert(old_r.contains(y) <==> prev.contains(y));
        }
        i = i + 1;
    }
    assert(items@.take(items.len() as int) =~= items@);
    r
}

/// A sorted sequence of rows has no row twice.
pub proof fn lemma_sorted_rows_distinct(texts: Seq<Seq<char>>, nums: Seq<u64>, asc: bool, r: Seq<usize>)
    requires
        rows_sorted(texts, nums, asc, r),
    ensures
        r.no_duplicates(),
{
    assert forall|i: int, j: int| 0 <= i < r.len() && 0 <= j < r.len() && i != j implies r[i]
        != r[j] by {
        lemma_row_before_order(texts, nums, asc, r[i] as int, r[j] as int, r[i] as int);
        if i < j {
            assert(row_before(texts, nums, asc, r[i] as int, r[j] as int));
        } else {
            assert(row_before(texts, nums, asc, r[j] as int, r[i] as int));
        }
    }
}

/// Two sorted sequences of the same rows are the same sequence: the order
/// leaves no choice.
pub proof fn lemma_sorted_rows_unique(
    texts: Seq<Seq<char>>,
    nums: Seq<u64>,
    asc: bool,
    a: Seq<usize>,
    b: Seq<usize>,
)
    requires
        rows_sorted(texts, nums, asc, a),
        rows_sorted(texts, nums, asc, b),
        forall|x: usize| a.contains(x) <==> b.contains(x),
    ensures
        a == b,
    decreases a.len() + b.len(),
{
    if a.len() > 0 && b.len() > 0 {
        assert(a.contains(a[0]));
        assert(b.contains(b[0]));
        let ka = choose|k: int| 0 <= k < b.len() && b[k] == a[0];
        let kb = choose|k: int| 0 <= k < a.len() && a[k] == b[0];
        assert(a[0] == b[0]) by {
            if ka > 0 && kb > 0 {
                assert(row_before(texts, nums, asc, b[0] as int, b[ka] as int));
                assert(row_before(texts, nums, asc, a[0] as int, a[kb] as int));
                lemma_row_before_order(texts, nums, asc, a[0] as int, b[0] as int, a[0] as int);
            } else if ka > 0 {
                assert(a[kb] == b[0]);
            }
        }
        lemma_sorted_rows_distinct(texts, nums, asc, a);
        lemma_sorted_rows_distinct(texts, nums, asc, b);
        assert forall|x: usize| a.drop_first().contains(x) <==> b.drop_first().contains(x) by {
            if a.drop_first().contains(x) {
                let k = choose|k: int| 0 <= k < a.len() - 1 && a.drop_first()[k] == x;
                assert(a[k + 1] == x);
                assert(a.contains(x));
                let m = choose|m: int| 0 <= m < b.len() && b[m] == x;
                assert(m != 0);
                assert(b.drop_first()[m - 1] == x);
            }
            if b.drop_first().contains(x) {
                let k = choose|k: int| 0 <= k < b.len() - 1 && b.drop_first()[k] == x;
                assert(b[k + 1] == x);
                assert(b.contains(x));
                let m = choose|m: int| 0 <= m < a.len() && a[m] == x;
                assert(m != 0);
                assert(a.drop_first()[m - 1] == x);
            }
        }
        assert(rows_sorted(texts, nums, asc, a.drop_first())) by {
            assert forall|i: int, j: int| 0 <= i < j < a.drop_first().len() implies row_before(
                texts,
                nums,
                asc,
                #[trigger] a.drop_first()[i] as int,
                #[trigger] a.drop_first()[j] as int,
            ) by {
                assert(a.drop_first()[i] == a[i + 1] && a.drop_first()[j] == a[j + 1]);
            }
        }
        assert(rows_sorted(texts, nums, asc, b.drop_first())) by {
            assert forall|i: int, j: int| 0 <= i < j < b.drop_first().len() implies row_before(
                texts,
                nums,
                asc,
                #[trigger] b.drop_first()[i] as int,
                #[trigger] b.drop_first()[j] as int,
            ) by {
                assert(b.drop_first()[i] == b[i + 1] && b.drop_first()[j] == b[j + 1]);
            }
        }
        lemma_sorted_rows_unique(texts, nums, asc, a.drop_first(), b.drop_first());
        assert(a =~= seq![a[0]] + a.drop_first());
        assert(b =~= seq![b[0]] + b.drop_first());
    } else if a.len() > 0 {
        assert(a.contains(a[0]));
    } else if b.len() > 0 {
        assert(b.contains(b[0]));
    } else {
        assert(a =~= b);
    }
}

/// With no two rows of `r` sharing their keys, the rows sorted the other
/// way round are `r` reversed.
pub proof fn lemma_sorted_rows_reverse(texts: Seq<Seq<char>>, nums: Seq<u64>, asc: bool, r: Seq<usize>)
    requires
        rows_sorted(texts, nums, asc, r),
        forall|i: int, j: int|
            0 <= i < r.len() && 0 <= j < r.len() && i != j ==> !key_eq(texts, nums, #[trigger] r[i] as int, #[trigger] r[j] as int),
    ensures
        rows_sorted(texts, nums, !asc, r.reverse()),
{
    assert forall|i: int, j: int| 0 <= i < j < r.reverse().len() implies row_before(
        texts,
        nums,
        !asc,
        #[trigger] r.reverse()[i] as int,
        #[trigger] r.reverse()[j] as int,
    ) by {
        let n = r.len();
        let a = r[n - 1 - j];
        let b = r[n - 1 - i];
        assert(r.reverse()[i] == b && r.reverse()[j] == a);
        assert(row_before(texts, nums, asc, a as int, b as int));
        assert(!key_eq(texts, nums, a as int, b as int));
        assert(!key_eq(texts, nums, b as int, a as int));
    }
}

} // verus!
