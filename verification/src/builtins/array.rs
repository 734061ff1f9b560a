use vstd::prelude::*;
use crate::ast_utils::str_to_chars;
use crate::builtins::number::{format_int_radix, radix_digit, radix_digits};

verus! {

/// The decimal text of an integer, with a `-` before a negative one.
pub open spec fn int_decimal(v: int) -> Seq<char> {
    if v < 0 {
        seq!['-'] + radix_digits((-v) as nat, 10)
    } else {
        radix_digits(v as nat, 10)
    }
}

/// Every character of `t` is a decimal digit.
pub open spec fn all_digits(t: Seq<char>) -> bool {
    forall|i: int| 0 <= i < t.len() ==> '0' <= #[trigger] t[i] <= '9'
}

/// The number a text of decimal digits stands for.
pub open spec fn digits_value(t: Seq<char>) -> int
    decreases t.len(),
{
    if t.len() == 0 {
        0
    } else {
        digits_value(t.drop_last()) * 10 + (t.last() as int - 48)
    }
}

/// The largest array index, `2^32 - 1`.
pub open spec fn max_index() -> int {
    4294967295
}

/// A text that names an array index: the decimal digits, with no sign and
/// no leading zero, of a number at most `2^32 - 1`.
pub open spec fn is_index_text(t: Seq<char>) -> bool {
    &&& t.len() > 0
    &&& all_digits(t)
    &&& (t.len() == 1 || t[0] != '0')
    &&& digits_value(t) <= max_index()
}

/// The decimal text of an array index.
pub fn index_to_string(index: i32) -> (r: String)
    ensures
        r@ == int_decimal(index as int),
{
    if index < 0 {
        let magnitude: i64 = -(index as i64);
        let digits = format_int_radix(magnitude, 10);
        let mut r = String::from_str("-");
        r.append(digits.as_str());
        proof {
            reveal_strlit("-");
        }
        r
    } else {
        let r = format_int_radix(index as i64, 10);
        proof {
            if index == 0 {
                lemma_zero_digits();
            }
        }
        r
    }
}

proof fn lemma_zero_digits()
    ensures
        radix_digits(0, 10) == seq!['0'],
{
    assert(radix_digit(0) == '0');
}

proof fn lemma_digits_value_nonneg(t: Seq<char>)
    requires
        all_digits(t),
    ensures
        digits_value(t) >= 0,
    decreases t.len(),
{
    if t.len() > 0 {
        assert(all_digits(t.drop_last()));
        lemma_digits_value_nonneg(t.drop_last());
        assert('0' <= t[t.len() - 1] <= '9');
    }
}

proof fn lemma_digits_value_prefix(t: Seq<char>, k: int)
    requires
        all_digits(t),
        0 <= k <= t.len(),
    ensures
        digits_value(t.subrange(0, k)) <= digits_value(t),
    decreases t.len() - k,
{
    if k == t.len() {
        assert(t.subrange(0, k) =~= t);
    } else {
        lemma_digits_value_prefix(t, k + 1);
        let p = t.subrange(0, k + 1);
        assert(p.drop_last() =~= t.subrange(0, k));
        assert(p.last() == t[k]);
        assert('0' <= t[k] <= '9');
        assert(all_digits(t.subrange(0, k)));
        lemma_digits_value_nonneg(t.subrange(0, k));
    }
}

/// The array index a text names, or `None` when it names none (see
/// `is_index_text`).
pub fn string_to_index(s: &str) -> (r: Option<u64>)
    ensures
        r == (if is_index_text(s@) {
            Some(digits_value(s@) as u64)
        } else {
            None::<u64>
        }),
{
    let chars = str_to_chars(s);
    let n: usize = chars.len();
    if n == 0 {
        return None;
    }
    if n > 1 && chars[0] == '0' {
        return None;
    }
    let mut value: u64 = 0;
    let mut i: usize = 0;
    while i < n
        invariant
            i <= n,
            n == chars@.len(),
            chars@ == s@,
            n > 0,
            n > 1 ==> s@[0] != '0',
            value == digits_value(s@.subrange(0, i as int)),
            value <= max_index(),
            all_digits(s@.subrange(0, i as int)),
        decreases n - i,
    {
        let c = chars[i];
        if c < '0' || c > '9' {
            return None;
        }
        let d: u64 = (c as u32 - 48) as u64;
        proof {
            assert(s@.subrange(0, i + 1).drop_last() =~= s@.subrange(0, i as int));
        }
        value = value * 10 + d;
        i = i + 1;
        if value > 4294967295 {
            proof {
                if all_digits(s@) {
                    lemma_digits_value_prefix(s@, i as int);
                }
            }
            return None;
        }
    }
    proof {
        assert(s@.subrange(0, n as int) =~= s@);
    }
    Some(value)
}

proof fn lemma_decimal_shape(i: nat)
    ensures
        radix_digits(i, 10).len() > 0,
        all_digits(radix_digits(i, 10)),
        digits_value(radix_digits(i, 10)) == i,
        i < 10 ==> radix_digits(i, 10).len() == 1,
        i > 0 ==> radix_digits(i, 10)[0] != '0',
    decreases i,
{
    let t = radix_digits(i, 10);
    if i >= 10 {
        lemma_decimal_shape(i / 10);
        let u = radix_digits(i / 10, 10);
        assert(t == u.push(radix_digit((i % 10) as int)));
        assert(t.drop_last() =~= u);
        assert(t.last() == radix_digit((i % 10) as int));
        assert(radix_digit((i % 10) as int) as int == 48 + i % 10);
        assert(i == (i / 10) * 10 + i % 10) by (nonlinear_arith);
        assert(digits_value(t) == digits_value(u) * 10 + (i % 10));
        assert(t[0] == u[0]);
        assert(all_digits(t)) by {
            assert forall|j: int| 0 <= j < t.len() implies '0' <= #[trigger] t[j] <= '9' by {
                if j < u.len() {
                    assert(t[j] == u[j]);
                }
            }
        }
    } else {
        assert(t == seq![radix_digit(i as int)]);
        assert(t.drop_last() =~= Seq::<char>::empty());
        assert(radix_digit(i as int) as int == 48 + i);
        assert(t.last() == radix_digit(i as int));
        assert(digits_value(t) == digits_value(t.drop_last()) * 10 + (t.last() as int - 48));
    }
}

/// The decimal text of every index names that index: `string_to_index`
/// undoes `index_to_string`.
pub proof fn lemma_index_text_roundtrip(i: int)
    requires
        0 <= i <= max_index(),
    ensures
        is_index_text(int_decimal(i)),
        digits_value(int_decimal(i)) == i,
{
    lemma_decimal_shape(i as nat);
}

/// The numbers that the index keys among `keys` name, in the order of the
/// keys, keeping those in `start..end`.
pub open spec fn key_indices(keys: Seq<String>, start: int, end: int) -> Seq<u64>
    decreases keys.len(),
{
    if keys.len() == 0 {
        Seq::empty()
    } else {
        let rest = key_indices(keys.drop_last(), start, end);
        let k = keys.last()@;
        if is_index_text(k) && start <= digits_value(k) < end {
            rest.push(digits_value(k) as u64)
        } else {
            rest
        }
    }
}

/// The numbers are in ascending order.
pub open spec fn ascending(s: Seq<u64>) -> bool {
    forall|i: int, j: int| 0 <= i <= j < s.len() ==> s[i] <= s[j]
}

/// Inserts `x` into the ascending `v`, after the elements not above it.
fn insert_ascending(v: &mut Vec<u64>, x: u64)
    requires
        ascending(old(v)@),
    ensures
        ascending(final(v)@),
        final(v)@.to_multiset() == old(v)@.to_multiset().insert(x),
{
    let mut pos: usize = 0;
    while pos < v.len() && v[pos] <= x
        invariant
            pos <= v@.len(),
            v@ == old(v)@,
            ascending(v@),
            forall|i: int| 0 <= i < pos ==> #[trigger] v@[i] <= x,
        decreases v@.len() - pos,
    {
        pos = pos + 1;
    }
    proof {
        vstd::seq_lib::to_multiset_insert(v@, pos as int, x);
    }
    v.insert(pos, x);
    assert forall|i: int, j: int| 0 <= i <= j < v@.len() implies v@[i] <= v@[j] by {
        if j < pos {
            assert(v@[i] == old(v)@[i] && v@[j] == old(v)@[j]);
        } else if j == pos {
            if i < pos {
                assert(v@[i] == old(v)@[i]);
            }
        } else if i == pos {
            assert(v@[j] == old(v)@[j - 1]);
            assert(old(v)@[pos as int] > x);
        } else if i < pos {
            assert(v@[i] == old(v)@[i] && v@[j] == old(v)@[j - 1]);
        } else {
            assert(v@[i] == old(v)@[i - 1] && v@[j] == old(v)@[j - 1]);
        }
    }
}

/// The index keys among `keys` that name an index in `start..end`, as
/// numbers in ascending order.
pub fn get_array_indices_in_range(keys: &Vec<String>, start: u64, end: u64) -> (r: Vec<u64>)
    ensures
        ascending(r@),
        r@.to_multiset() == key_indices(keys@, start as int, end as int).to_multiset(),
{
    let mut indices: Vec<u64> = Vec::new();
    let mut i: usize = 0;
    while i < keys.len()
        invariant
            i <= keys@.len(),
            ascending(indices@),
            indices@.to_multiset() == key_indices(keys@.subrange(0, i as int), start as int, end as int).to_multiset(),
        decreases keys@.len() - i,
    {
        let ghost before = keys@.subrange(0, i as int);
        proof {
            assert(keys@.subrange(0, i + 1).drop_last() =~= before);
            assert(keys@.subrange(0, i + 1).last() == keys@[i as int]);
            if is_index_text(keys@[i as int]@) {
                lemma_digits_value_nonneg(keys@[i as int]@);
            }
        }
        match string_to_index(keys[i].as_str()) {
            Some(index) => {
                if index >= start && index < end {
                    proof {
                        vstd::seq_lib::to_multiset_build(key_indices(before, start as int, end as int), index);
                    }
                    insert_ascending(&mut indices, index);
                }
            },
            None => {},
        }
        i = i + 1;
    }
    proof {
        assert(keys@.subrange(0, keys@.len() as int) =~= keys@);
    }
    indices
}

/// The index keys among `keys`, as numbers in ascending order.
pub fn get_array_indices(keys: &Vec<String>) -> (r: Vec<u64>)
    ensures
        ascending(r@),
        r@.to_multiset() == key_indices(keys@, 0, max_index() + 1).to_multiset(),
{
    get_array_indices_in_range(keys, 0, 4294967296)
}

proof fn lemma_key_indices_bounds(keys: Seq<String>, lo: int, hi: int)
    ensures
        forall|j: int|
            0 <= j < key_indices(keys, lo, hi).len() ==> lo <= #[trigger] key_indices(keys, lo, hi)[j]
                < hi,
    decreases keys.len(),
{
    if keys.len() > 0 {
        let rest = key_indices(keys.drop_last(), lo, hi);
        lemma_key_indices_bounds(keys.drop_last(), lo, hi);
        let k = keys.last()@;
        if is_index_text(k) {
            lemma_digits_value_nonneg(k);
        }
        assert forall|j: int| 0 <= j < key_indices(keys, lo, hi).len() implies lo
            <= #[trigger] key_indices(keys, lo, hi)[j] < hi by {
            if j < rest.len() {
                assert(key_indices(keys, lo, hi)[j] == rest[j]);
            }
        }
    }
}

/// Every number of a sequence with the numbers of `key_indices(keys, lo, hi)`
/// lies in `lo..hi`.
proof fn lemma_indices_in_range(v: Seq<u64>, keys: Seq<String>, lo: int, hi: int)
    requires
        v.to_multiset() == key_indices(keys, lo, hi).to_multiset(),
    ensures
        forall|j: int| 0 <= j < v.len() ==> lo <= #[trigger] v[j] < hi,
{
    broadcast use vstd::seq_lib::to_multiset_contains;

    lemma_key_indices_bounds(keys, lo, hi);
    assert forall|j: int| 0 <= j < v.len() implies lo <= #[trigger] v[j] < hi by {
        assert(v.contains(v[j]));
        assert(v.to_multiset().count(v[j]) > 0);
        assert(key_indices(keys, lo, hi).to_multiset().count(v[j]) > 0);
        assert(key_indices(keys, lo, hi).contains(v[j]));
    }
}

/// Where a relative position lands in an array of length `len`: counted
/// from the end when negative, and kept within `0..=len`.
pub open spec fn relative_position(rel: int, len: int) -> int {
    if rel < 0 {
        if len + rel < 0 {
            0
        } else {
            len + rel
        }
    } else if rel > len {
        len
    } else {
        rel
    }
}

/// The position an optional relative argument names, `default` without one.
pub open spec fn position_arg(arg: Option<i64>, default: int, len: int) -> int {
    match arg {
        Some(rel) => relative_position(rel as int, len),
        None => default,
    }
}

/// The indices `lo..hi`, in order (none when `hi <= lo`).
pub open spec fn index_range(lo: int, hi: int) -> Seq<u64> {
    Seq::new(if hi > lo { (hi - lo) as nat } else { 0 }, |i: int| (lo + i) as u64)
}

/// Where a relative position argument lands in an array of length `len`
/// (see `relative_position`).
pub fn relative_index(rel: i64, len: u64) -> (r: u64)
    requires
        len <= i64::MAX,
    ensures
        r == relative_position(rel as int, len as int),
{
    if rel < 0 {
        let from_end: i64 = len as i64 + rel;
        if from_end < 0 {
            0
        } else {
            from_end as u64
        }
    } else if rel > len as i64 {
        len
    } else {
        rel as u64
    }
}

/// The indices that `Array.prototype.slice(begin, end)` copies from an
/// array of length `len` whose keys are `keys`, in the order of the copy:
/// every index of the range when it spans at most 1000, else only the
/// indices present, ascending.
pub fn slice_sources(keys: &Vec<String>, len: u64, begin: Option<i64>, end: Option<i64>) -> (r: Vec<
    u64,
>)
    requires
        len <= i64::MAX,
    ensures
        ({
            let b = position_arg(begin, 0, len as int);
            let e = position_arg(end, len as int, len as int);
            &&& e - b <= 1000 ==> r@ == index_range(b, e)
            &&& e - b > 1000 ==> ascending(r@) && r@.to_multiset() == key_indices(keys@, b, e).to_multiset()
        }),
{
    let b: u64 = match begin {
        Some(rel) => relative_index(rel, len),
        None => 0,
    };
    let e: u64 = match end {
        Some(rel) => relative_index(rel, len),
        None => len,
    };
    if e <= b || e - b <= 1000 {
        let mut sources: Vec<u64> = Vec::new();
        let mut index: u64 = b;
        while index < e
            invariant
                b <= e ==> b <= index <= e,
                e <= len,
                b > e ==> index == b,
                sources@ == index_range(b as int, index as int),
            decreases e - index,
        {
            sources.push(index);
            index = index + 1;
            proof {
                assert(sources@ =~= index_range(b as int, index as int));
            }
        }
        proof {
            assert(sources@ =~= index_range(b as int, e as int));
        }
        sources
    } else {
        get_array_indices_in_range(keys, b, e)
    }
}

/// What `Array.prototype.splice` does to an array: the elements it
/// removes, the moves of the elements after them, and the new length. The
/// inserted items go to `start`, `start + 1`, and so on.
pub struct SplicePlan {
    pub start: u64,
    pub delete_count: u64,
    /// The indices of the removed elements, ascending.
    pub deleted: Vec<u64>,
    /// The elements to move, `(from, to)`, in the order to move them.
    pub moves: Vec<(u64, u64)>,
    pub new_length: u64,
}

/// The first components of the moves.
pub open spec fn move_sources(moves: Seq<(u64, u64)>) -> Seq<u64> {
    moves.map_values(|m: (u64, u64)| m.0)
}

/// The numbers are in descending order.
pub open spec fn descending(s: Seq<u64>) -> bool {
    forall|i: int, j: int| 0 <= i <= j < s.len() ==> s[i] >= s[j]
}

/// The plan of `Array.prototype.splice(start, delete_count, ..items)` on an
/// array of length `len` whose keys are `keys`, with `items_len` items.
pub fn splice_plan(
    keys: &Vec<String>,
    len: u64,
    start: Option<i64>,
    delete_count: Option<i64>,
    items_len: u64,
) -> (r: SplicePlan)
    requires
        len <= i64::MAX,
        items_len <= i64::MAX,
    ensures
        r.start == position_arg(start, 0, len as int),
        r.delete_count == (match delete_count {
            None => len - r.start,
            Some(d) => if d < 0 {
                0
            } else if d > len - r.start {
                len - r.start
            } else {
                d as int
            },
        }),
        ascending(r.deleted@),
        r.deleted@.to_multiset() == key_indices(
            keys@,
            r.start as int,
            r.start + r.delete_count,
        ).to_multiset(),
        items_len == r.delete_count ==> r.moves@.len() == 0,
        items_len != r.delete_count ==> move_sources(r.moves@).to_multiset() == key_indices(
            keys@,
            r.start + r.delete_count,
            len as int,
        ).to_multiset(),
        items_len < r.delete_count ==> ascending(move_sources(r.moves@)),
        items_len > r.delete_count ==> descending(move_sources(r.moves@)),
        forall|i: int|
            0 <= i < r.moves@.len() ==> #[trigger] r.moves@[i].1 == r.moves@[i].0 + items_len
                - r.delete_count,
        r.new_length == len - r.delete_count + items_len,
{
    let s: u64 = match start {
        Some(rel) => relative_index(rel, len),
        None => 0,
    };
    let mut count: u64 = len - s;
    match delete_count {
        Some(d) => {
            if d < 0 {
                count = 0;
            } else if d > (len - s) as i64 {
                count = len - s;
            } else {
                count = d as u64;
            }
        },
        None => {},
    }
    let deleted = get_array_indices_in_range(keys, s, s + count);
    let shifted = get_array_indices_in_range(keys, s + count, len);
    proof {
        lemma_indices_in_range(shifted@, keys@, (s + count) as int, len as int);
    }
    let mut moves: Vec<(u64, u64)> = Vec::new();
    if items_len < count {
        // to the left, from the lowest index up
        let by: u64 = count - items_len;
        let mut i: usize = 0;
        while i < shifted.len()
            invariant
                i <= shifted@.len(),
                by == count - items_len,
                count <= len - s,
                forall|j: int| 0 <= j < shifted@.len() ==> #[trigger] shifted@[j] >= s + count,
                moves@.len() == i,
                forall|j: int| 0 <= j < i ==> #[trigger] moves@[j] == (shifted@[j], (shifted@[j] - by) as u64),
            decreases shifted@.len() - i,
        {
            let from: u64 = shifted[i];
            moves.push((from, from - by));
            i = i + 1;
        }
        proof {
            assert(move_sources(moves@) =~= shifted@);
        }
    } else if items_len > count {
        // to the right, from the highest index down
        let by: u64 = items_len - count;
        let n: usize = shifted.len();
        let mut i: usize = n;
        while i > 0
            invariant
                i <= n,
                n == shifted@.len(),
                by == items_len - count,
                by <= i64::MAX,
                forall|j: int| 0 <= j < shifted@.len() ==> #[trigger] shifted@[j] < len,
                len <= i64::MAX,
                moves@.len() == n - i,
                forall|j: int| 0 <= j < n - i ==> #[trigger] moves@[j] == (shifted@[n - 1 - j], (shifted@[n - 1 - j] + by) as u64),
            decreases i,
        {
            i = i - 1;
            let from: u64 = shifted[i];
            moves.push((from, from + by));
        }
        proof {
            assert(move_sources(moves@) =~= shifted@.reverse());
            assert(shifted@.reverse().to_multiset() == shifted@.to_multiset()) by {
                shifted@.lemma_reverse_to_multiset();
            }
            assert forall|x: int, y: int| 0 <= x <= y < moves@.len() implies move_sources(moves@)[x]
                >= move_sources(moves@)[y] by {
                assert(move_sources(moves@)[x] == shifted@[n - 1 - x]);
                assert(move_sources(moves@)[y] == shifted@[n - 1 - y]);
            }
        }
    }
    SplicePlan { start: s, delete_count: count, deleted, moves, new_length: len - count + items_len }
}

/// The indices that `Array.prototype.includes` and `indexOf` look at from
/// `from` in an array of length `len` whose keys are `keys`, in order: a
/// negative `from` counts from the end; every index up to the length when
/// the array is at most 1000 long, else only the indices present, ascending.
pub fn search_indices(keys: &Vec<String>, len: u64, from: Option<i64>) -> (r: Vec<u64>)
    requires
        len <= i64::MAX,
    ensures
        ({
            let f = match from {
                Some(x) => if x < 0 {
                    relative_position(x as int, len as int)
                } else {
                    x as int
                },
                None => 0,
            };
            &&& len <= 1000 ==> r@ == index_range(f, len as int)
            &&& len > 1000 ==> ascending(r@) && r@.to_multiset() == key_indices(keys@, f, len as int).to_multiset()
        }),
{
    let f: u64 = match from {
        Some(x) => if x < 0 {
            relative_index(x, len)
        } else {
            x as u64
        },
        None => 0,
    };
    if len <= 1000 {
        let mut indices: Vec<u64> = Vec::new();
        let mut index: u64 = f;
        while index < len
            invariant
                f < len ==> f <= index <= len,
                f >= len ==> index == f,
                indices@ == index_range(f as int, index as int),
            decreases len - index,
        {
            indices.push(index);
            index = index + 1;
            proof {
                assert(indices@ =~= index_range(f as int, index as int));
            }
        }
        proof {
            assert(indices@ =~= index_range(f as int, len as int));
        }
        indices
    } else {
        get_array_indices_in_range(keys, f, len)
    }
}

/// The range `start..end` that `Array.prototype.fill(value, start, end)`
/// fills in an array of length `len` (see `relative_position`).
pub fn fill_range(len: i32, start: Option<i32>, end: Option<i32>) -> (r: (i32, i32))
    requires
        len >= 0,
    ensures
        r.0 == (match start {
            Some(x) => relative_position(x as int, len as int),
            None => 0,
        }),
        r.1 == (match end {
            Some(x) => relative_position(x as int, len as int),
            None => len as int,
        }),
{
    let mut s: i32 = 0;
    let mut e: i32 = len;
    match start {
        Some(x) => {
            s = x;
            if s < 0 {
                s = len + s;
                if s < 0 {
                    s = 0;
                }
            }
            if s > len {
                s = len;
            }
        },
        None => {},
    }
    match end {
        Some(x) => {
            e = x;
            if e < 0 {
                e = len + e;
                if e < 0 {
                    e = 0;
                }
            }
            if e > len {
                e = len;
            }
        },
        None => {},
    }
    (s, e)
}

/// `a` sorts no later than `b`: compared character by character by code
/// point, a prefix first.
pub open spec fn text_le(a: Seq<char>, b: Seq<char>) -> bool
    decreases a.len(),
{
    if a.len() == 0 {
        true
    } else if b.len() == 0 {
        false
    } else if a[0] != b[0] {
        a[0] < b[0]
    } else {
        text_le(a.drop_first(), b.drop_first())
    }
}

/// The order of texts is reflexive, total and transitive.
pub proof fn lemma_text_le_order(a: Seq<char>, b: Seq<char>, c: Seq<char>)
    ensures
        text_le(a, a),
        text_le(a, b) || text_le(b, a),
        text_le(a, b) && text_le(b, c) ==> text_le(a, c),
    decreases a.len(),
{
    if a.len() > 0 {
        lemma_text_le_order(a.drop_first(), b.drop_first(), c.drop_first());
        if b.len() > 0 && c.len() > 0 {
            if a[0] < b[0] || b[0] < c[0] {
            }
        }
    }
}

/// Whether `a` sorts no later than `b` (see `text_le`).
fn text_le_exec(a: &Vec<char>, b: &Vec<char>) -> (r: bool)
    ensures
        r == text_le(a@, b@),
{
    let mut i: usize = 0;
    proof {
        assert(a@.subrange(0, a@.len() as int) =~= a@);
        assert(b@.subrange(0, b@.len() as int) =~= b@);
    }
    loop
        invariant
            i <= a@.len(),
            i <= b@.len(),
            text_le(a@, b@) == text_le(a@.subrange(i as int, a@.len() as int), b@.subrange(i as int, b@.len() as int)),
        ensures
            i <= a@.len(),
            i <= b@.len(),
            text_le(a@, b@) == text_le(a@.subrange(i as int, a@.len() as int), b@.subrange(i as int, b@.len() as int)),
            i < a@.len() && i < b@.len() ==> a@[i as int] != b@[i as int],
        decreases a@.len() - i,
    {
        if i >= a.len() || i >= b.len() || a[i] != b[i] {
            break;
        }
        proof {
            let sa = a@.subrange(i as int, a@.len() as int);
            let sb = b@.subrange(i as int, b@.len() as int);
            assert(sa.drop_first() =~= a@.subrange(i + 1, a@.len() as int));
            assert(sb.drop_first() =~= b@.subrange(i + 1, b@.len() as int));
        }
        i = i + 1;
    }
    let ghost sa = a@.subrange(i as int, a@.len() as int);
    let ghost sb = b@.subrange(i as int, b@.len() as int);
    if i == a.len() {
        assert(sa.len() == 0);
        true
    } else if i == b.len() {
        assert(sa.len() > 0 && sb.len() == 0);
        false
    } else {
        proof {
            assert(sa[0] == a@[i as int] && sb[0] == b@[i as int]);
            assert(sa[0] != sb[0]);
            assert(text_le(sa, sb) == (sa[0] < sb[0]));
        }
        a[i] < b[i]
    }
}

/// The order in which `Array.prototype.sort` puts elements whose texts are
/// `keys`: a permutation of the positions, ascending by text (see
/// `text_le`), elements with equal texts keeping their order.
pub fn sort_order(keys: &Vec<String>) -> (r: Vec<usize>)
    ensures
        r@.len() == keys@.len(),
        forall|p: int| 0 <= p < r@.len() ==> #[trigger] r@[p] < keys@.len(),
        forall|p: int, q: int| 0 <= p < q < r@.len() ==> r@[p] != r@[q],
        forall|p: int, q: int|
            0 <= p <= q < r@.len() ==> text_le(keys@[r@[p] as int]@, keys@[r@[q] as int]@),
        forall|p: int, q: int|
            0 <= p < q < r@.len() && keys@[r@[p] as int]@ == keys@[r@[q] as int]@ ==> r@[p] < r@[q],
{
    let n: usize = keys.len();
    let mut texts: Vec<Vec<char>> = Vec::new();
    let mut j: usize = 0;
    while j < n
        invariant
            j <= n,
            n == keys@.len(),
            texts@.len() == j,
            forall|k: int| 0 <= k < j ==> (#[trigger] texts@[k])@ == keys@[k]@,
        decreases n - j,
    {
        texts.push(str_to_chars(keys[j].as_str()));
        j = j + 1;
    }
    let mut order: Vec<usize> = Vec::new();
    let mut i: usize = 0;
    while i < n
        invariant
            i <= n,
            n == keys@.len(),
            texts@.len() == n,
            forall|k: int| 0 <= k < n ==> (#[trigger] texts@[k])@ == keys@[k]@,
            order@.len() == i,
            forall|p: int| 0 <= p < order@.len() ==> #[trigger] order@[p] < i,
            forall|p: int, q: int| 0 <= p < q < order@.len() ==> order@[p] != order@[q],
            forall|p: int, q: int|
                0 <= p <= q < order@.len() ==> text_le(keys@[order@[p] as int]@, keys@[order@[q] as int]@),
            forall|p: int, q: int|
                0 <= p < q < order@.len() && keys@[order@[p] as int]@ == keys@[order@[q] as int]@
                    ==> order@[p] < order@[q],
        decreases n - i,
    {
        let ghost x = keys@[i as int]@;
        let mut pos: usize = order.len();
        loop
            invariant
                x == keys@[i as int]@,
                pos <= order@.len(),
                order@.len() == i,
                i < n,
                n == keys@.len(),
                texts@.len() == n,
                forall|k: int| 0 <= k < n ==> (#[trigger] texts@[k])@ == keys@[k]@,
                forall|p: int| 0 <= p < order@.len() ==> #[trigger] order@[p] < i,
                forall|q: int| pos <= q < order@.len() ==> !text_le(#[trigger] keys@[order@[q] as int]@, x),
            ensures
                pos <= order@.len(),
                forall|q: int| pos <= q < order@.len() ==> !text_le(#[trigger] keys@[order@[q] as int]@, x),
                pos > 0 ==> text_le(keys@[order@[pos - 1] as int]@, x),
            decreases pos,
        {
            if pos == 0 {
                break;
            }
            let k: usize = order[pos - 1];
            let le = text_le_exec(&texts[k], &texts[i]);
            proof {
                assert(texts@[k as int]@ == keys@[k as int]@);
                assert(texts@[i as int]@ == keys@[i as int]@);
            }
            if le {
                break;
            }
            pos = pos - 1;
        }
        let ghost before = order@;
        order.insert(pos, i);
        proof {
            assert forall|p: int, q: int| 0 <= p <= q < order@.len() implies text_le(
                keys@[order@[p] as int]@,
                keys@[order@[q] as int]@,
            ) by {
                let kp = keys@[order@[p] as int]@;
                let kq = keys@[order@[q] as int]@;
                if p == q {
                    lemma_text_le_order(kp, kp, kp);
                } else if q < pos {
                    assert(order@[p] == before[p] && order@[q] == before[q]);
                } else if p > pos {
                    assert(order@[p] == before[p - 1] && order@[q] == before[q - 1]);
                } else if p == pos {
                    assert(order@[q] == before[q - 1]);
                    assert(!text_le(kq, x));
                    lemma_text_le_order(kq, x, x);
                } else if q == pos {
                    assert(order@[p] == before[p]);
                    let kl = keys@[before[pos - 1] as int]@;
                    assert(text_le(kl, x));
                    assert(text_le(kp, kl));
                    lemma_text_le_order(kp, kl, x);
                } else {
                    assert(order@[p] == before[p] && order@[q] == before[q - 1]);
                }
            }
            assert forall|p: int, q: int|
                0 <= p < q < order@.len() && keys@[order@[p] as int]@ == keys@[order@[q] as int]@
                    implies order@[p] < order@[q] by {
                if q < pos {
                    assert(order@[p] == before[p] && order@[q] == before[q]);
                } else if p > pos {
                    assert(order@[p] == before[p - 1] && order@[q] == before[q - 1]);
                } else if p == pos {
                    assert(order@[q] == before[q - 1]);
                    lemma_text_le_order(x, x, x);
                    assert(!text_le(keys@[before[q - 1] as int]@, x));
                } else if q == pos {
                    assert(order@[p] == before[p]);
                } else {
                    assert(order@[p] == before[p] && order@[q] == before[q - 1]);
                }
            }
            assert forall|p: int, q: int| 0 <= p < q < order@.len() implies order@[p] != order@[q] by {
                if q < pos {
                    assert(order@[p] == before[p] && order@[q] == before[q]);
                } else if p > pos {
                    assert(order@[p] == before[p - 1] && order@[q] == before[q - 1]);
                } else if p == pos {
                    assert(order@[q] == before[q - 1]);
                } else if q == pos {
                    assert(order@[p] == before[p]);
                } else {
                    assert(order@[p] == before[p] && order@[q] == before[q - 1]);
                }
            }
            assert forall|p: int| 0 <= p < order@.len() implies #[trigger] order@[p] < i + 1 by {
                if p < pos {
                    assert(order@[p] == before[p]);
                } else if p > pos {
                    assert(order@[p] == before[p - 1]);
                }
            }
        }
        i = i + 1;
    }
    order
}

} // verus!
