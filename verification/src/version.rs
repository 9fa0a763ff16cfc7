//! Version keys: how the launcher reads and orders version strings such as
//! `1.19.2`, `1.19.2-251213` or `0.0.0-ERA`.
use vstd::prelude::*;
use crate::text::{chars_of, string_of_range, trim, trim_bounds};

verus! {

// ---------------------------------------------------------------- scanning

/// The index of the first character of `s` that satisfies `f`, or `s.len()`.
pub open spec fn first_match(s: Seq<char>, f: spec_fn(char) -> bool) -> int
    decreases s.len(),
{
    if s.len() == 0 {
        0
    } else if f(s[0]) {
        0
    } else {
        1 + first_match(s.drop_first(), f)
    }
}

pub proof fn lemma_first_match_bounds(s: Seq<char>, f: spec_fn(char) -> bool)
    ensures
        0 <= first_match(s, f) <= s.len(),
        forall|j: int| 0 <= j < first_match(s, f) ==> !f(#[trigger] s[j]),
        first_match(s, f) < s.len() ==> f(s[first_match(s, f)]),
    decreases s.len(),
{
    if s.len() > 0 && !f(s[0]) {
        lemma_first_match_bounds(s.drop_first(), f);
        assert forall|j: int| 0 <= j < first_match(s, f) implies !f(#[trigger] s[j]) by {
            if j > 0 {
                assert(s[j] == s.drop_first()[j - 1]);
            }
        }
    }
}

/// `c` is one of the characters that start a version's suffix.
pub open spec fn is_suffix_mark(c: char) -> bool {
    c == '+' || c == '-'
}

pub open spec fn is_dot(c: char) -> bool {
    c == '.'
}

fn is_mark(c: char, sign: bool) -> (r: bool)
    ensures
        r == (if sign {
            is_suffix_mark(c)
        } else {
            is_dot(c)
        }),
{
    if sign {
        c == '+' || c == '-'
    } else {
        c == '.'
    }
}

/// The first index at or after `from` whose character is `+` or `-` (when
/// `sign`) or `.` (otherwise), or `v.len()`.
fn find_mark_from(v: &Vec<char>, from: usize, sign: bool) -> (r: usize)
    requires
        from <= v@.len(),
    ensures
        from <= r <= v@.len(),
        sign ==> r == from + first_match(v@.skip(from as int), |c: char| is_suffix_mark(c)),
        !sign ==> r == from + first_match(v@.skip(from as int), |c: char| is_dot(c)),
{
    let ghost f = if sign {
        |c: char| is_suffix_mark(c)
    } else {
        |c: char| is_dot(c)
    };
    let n = v.len();
    let mut i = from;
    while i < n && !is_mark(v[i], sign)
        invariant
            from <= i <= n == v@.len(),
            f == (if sign {
                |c: char| is_suffix_mark(c)
            } else {
                |c: char| is_dot(c)
            }),
            from + first_match(v@.skip(from as int), f) == i + first_match(v@.skip(i as int), f),
        decreases n - i,
    {
        assert(v@.skip(i as int).drop_first() == v@.skip(i + 1));
        assert(v@.skip(i as int)[0] == v@[i as int]);
        i = i + 1;
    }
    if i < n {
        assert(v@.skip(i as int)[0] == v@[i as int]);
    }
    i
}

// ---------------------------------------------------------------- integers

pub open spec fn is_digit(c: char) -> bool {
    '0' <= c <= '9'
}

pub open spec fn digit_value(c: char) -> int {
    (c as u32) - 48
}

/// The number written in decimal by the digits `s`.
pub open spec fn digits_value(s: Seq<char>) -> int
    decreases s.len(),
{
    if s.len() == 0 {
        0
    } else {
        digits_value(s.drop_last()) * 10 + digit_value(s.last())
    }
}

pub open spec fn all_digits(s: Seq<char>) -> bool {
    forall|i: int| 0 <= i < s.len() ==> is_digit(#[trigger] s[i])
}

/// `i64::from_str`: an optional `+` or `-`, then one or more decimal digits,
/// whose value must fit in an `i64`.
pub open spec fn parse_i64(s: Seq<char>) -> Option<int> {
    let negative = s.len() > 0 && s[0] == '-';
    let body = if s.len() > 0 && (s[0] == '-' || s[0] == '+') {
        s.drop_first()
    } else {
        s
    };
    if body.len() == 0 || !all_digits(body) {
        None
    } else {
        let v = if negative {
            -digits_value(body)
        } else {
            digits_value(body)
        };
        if i64::MIN <= v <= i64::MAX {
            Some(v)
        } else {
            None
        }
    }
}

proof fn lemma_digits_value_nonneg(s: Seq<char>)
    requires
        all_digits(s),
    ensures
        digits_value(s) >= 0,
    decreases s.len(),
{
    if s.len() > 0 {
        assert(all_digits(s.drop_last()));
        lemma_digits_value_nonneg(s.drop_last());
        assert(is_digit(s[s.len() - 1]));
    }
}

/// A longer run of digits never has a smaller value than its prefix.
proof fn lemma_digits_value_grows(s: Seq<char>, i: int)
    requires
        0 <= i <= s.len(),
        all_digits(s),
    ensures
        digits_value(s.take(i)) <= digits_value(s),
    decreases s.len() - i,
{
    if i == s.len() {
        assert(s.take(i) == s);
    } else {
        lemma_digits_value_grows(s, i + 1);
        assert(s.take(i + 1).drop_last() == s.take(i));
        assert(s.take(i + 1).last() == s[i]);
        assert(is_digit(s[i]));
        assert(all_digits(s.take(i)));
        lemma_digits_value_nonneg(s.take(i));
        assert(digits_value(s.take(i + 1)) == digits_value(s.take(i)) * 10 + digit_value(s[i]));
    }
}

/// Parses `v[from..to]` as `i64::from_str` does.
pub fn parse_i64_range(v: &Vec<char>, from: usize, to: usize) -> (r: Option<i64>)
    requires
        from <= to <= v@.len(),
    ensures
        r matches Some(x) ==> parse_i64(v@.subrange(from as int, to as int)) == Some(x as int),
        r is None ==> parse_i64(v@.subrange(from as int, to as int)) is None,
{
    let ghost s = v@.subrange(from as int, to as int);
    if from == to {
        return None;
    }
    let negative = v[from] == '-';
    let start = if v[from] == '-' || v[from] == '+' {
        from + 1
    } else {
        from
    };
    let ghost body = v@.subrange(start as int, to as int);
    assert(s[0] == v@[from as int]);
    assert(body == (if s[0] == '-' || s[0] == '+' {
        s.drop_first()
    } else {
        s
    }));
    if start == to {
        return None;
    }
    // the largest magnitude allowed
    let limit: u64 = if negative {
        0x8000_0000_0000_0000u64
    } else {
        0x7fff_ffff_ffff_ffffu64
    };
    let mut acc: u64 = 0;
    let mut i = start;
    while i < to
        invariant
            from <= start <= i <= to <= v@.len(),
            start < to,
            s == v@.subrange(from as int, to as int),
            s.len() > 0,
            negative == (s[0] == '-'),
            body == (if s[0] == '-' || s[0] == '+' {
                s.drop_first()
            } else {
                s
            }),
            body == v@.subrange(start as int, to as int),
            acc <= limit,
            all_digits(body.take(i - start)),
            acc == digits_value(body.take(i - start)),
            limit == (if negative {
                0x8000_0000_0000_0000u64
            } else {
                0x7fff_ffff_ffff_ffffu64
            }),
        decreases to - i,
    {
        let c = v[i];
        assert(body[i - start] == c);
        if !('0' <= c && c <= '9') {
            assert(!all_digits(body));
            return None;
        }
        let d: u64 = ((c as u32) - 48) as u64;
        assert(body.take(i - start + 1).drop_last() == body.take(i - start));
        assert(body.take(i - start + 1).last() == c);
        if acc > (limit - d) / 10 {
            proof {
                assert(acc * 10 + d > limit) by (nonlinear_arith)
                    requires
                        acc > (limit - d) / 10,
                        d <= 9,
                        d <= limit,
                ;
                if all_digits(body) {
                    lemma_digits_value_grows(body, i - start + 1);
                }
            }
            return None;
        }
        assert(acc * 10 + d <= limit) by (nonlinear_arith)
            requires
                acc <= (limit - d) / 10,
                d <= 9,
                d <= limit,
        ;
        acc = acc * 10 + d;
        assert(all_digits(body.take(i - start + 1)));
        i = i + 1;
    }
    assert(body.take(to - start) == body);
    if negative {
        if acc == 0x8000_0000_0000_0000u64 {
            Some(i64::MIN)
        } else {
            let m: i64 = acc as i64;
            Some(-m)
        }
    } else {
        Some(acc as i64)
    }
}

// ---------------------------------------------------------------- fields

/// The `k`-th field of `s` when it is split at each `.` (`str::split('.')`),
/// if there are that many.
pub open spec fn dot_field(s: Seq<char>, k: nat) -> Option<Seq<char>>
    decreases k,
{
    let d = first_match(s, |c: char| is_dot(c));
    if k == 0 {
        Some(s.take(d))
    } else if d >= s.len() {
        None
    } else {
        dot_field(s.skip(d + 1), (k - 1) as nat)
    }
}

/// The number in the `k`-th field, or 0 when there is none or it does not parse.
pub open spec fn field_number(s: Seq<char>, k: nat) -> int {
    match dot_field(s, k) {
        Some(f) => match parse_i64(f) {
            Some(x) => x,
            None => 0,
        },
        None => 0,
    }
}

/// The bounds of the `k`-th dot-separated field of `v[from..]`.
fn dot_field_bounds(v: &Vec<char>, from: usize, k: usize) -> (r: Option<(usize, usize)>)
    requires
        from <= v@.len(),
    ensures
        match r {
            Some((a, b)) => a <= b <= v@.len() && dot_field(v@.skip(from as int), k as nat) == Some(
                v@.subrange(a as int, b as int),
            ),
            None => dot_field(v@.skip(from as int), k as nat) is None,
        },
    decreases k,
{
    let ghost f = |c: char| is_dot(c);
    let d = find_mark_from(v, from, false);
    proof {
        lemma_first_match_bounds(v@.skip(from as int), f);
    }
    if k == 0 {
        assert(v@.skip(from as int).take(d - from) == v@.subrange(from as int, d as int));
        Some((from, d))
    } else if d >= v.len() {
        None
    } else {
        assert(v@.skip(from as int).skip(d - from + 1) == v@.skip(d + 1));
        dot_field_bounds(v, d + 1, k - 1)
    }
}

fn field_number_exec(v: &Vec<char>, k: usize) -> (r: i64)
    ensures
        r == field_number(v@, k as nat),
{
    assert(v@.skip(0) == v@);
    match dot_field_bounds(v, 0, k) {
        Some((a, b)) => match parse_i64_range(v, a, b) {
            Some(x) => x,
            None => 0,
        },
        None => 0,
    }
}

// ---------------------------------------------------------------- keys

/// What a version key holds: three numbers and the suffix.
pub type KeyModel = (int, int, int, Seq<char>);

/// The sortable key of a version string (`version_key`): the string is trimmed,
/// split at its first `+` or `-` into a core and a suffix (which keeps the mark),
/// and the first three `.`-separated fields of the core are read as numbers,
/// each 0 when it is missing or does not parse.
pub open spec fn version_key_of(version: Seq<char>) -> KeyModel {
    let t = trim(version);
    let i = first_match(t, |c: char| is_suffix_mark(c));
    let core = t.take(i);
    (field_number(core, 0), field_number(core, 1), field_number(core, 2), t.skip(i))
}

/// The model of an executable key.
pub open spec fn key_model(k: (i64, i64, i64, String)) -> KeyModel {
    (k.0 as int, k.1 as int, k.2 as int, k.3@)
}

/// Sortable key for semver-ish versions like 1.19.2 or 1.19.2-251213 or 0.0.0-ERA.
pub fn version_key(version: &str) -> (r: (i64, i64, i64, String))
    ensures
        key_model(r) == version_key_of(version@),
{
    let all = chars_of(version);
    let (a, b) = trim_bounds(&all);
    let t = copy_range(&all, a, b);
    let i = find_mark_from(&t, 0, true);
    assert(t@.skip(0) == t@);
    let core = copy_range(&t, 0, i);
    assert(core@ == t@.take(i as int));
    let suffix = string_of_range(&t, i, t.len());
    assert(t@.subrange(i as int, t@.len() as int) == t@.skip(i as int));
    (field_number_exec(&core, 0), field_number_exec(&core, 1), field_number_exec(&core, 2), suffix)
}

/// A copy of `v[from..to]`.
pub fn copy_range(v: &Vec<char>, from: usize, to: usize) -> (r: Vec<char>)
    requires
        from <= to <= v@.len(),
    ensures
        r@ == v@.subrange(from as int, to as int),
{
    let mut out: Vec<char> = Vec::new();
    let mut i = from;
    while i < to
        invariant
            from <= i <= to <= v@.len(),
            out@ == v@.subrange(from as int, i as int),
        decreases to - i,
    {
        out.push(v[i]);
        assert(v@.subrange(from as int, i + 1) == v@.subrange(from as int, i as int).push(
            v@[i as int],
        ));
        i = i + 1;
    }
    out
}

} // verus!

verus! {

// ---------------------------------------------------------------- decimal versions

/// The character of the decimal digit `d` (`0 <= d < 10`).
pub open spec fn decimal_digit(d: int) -> char {
    (48 + d) as char
}

/// The decimal text of `n`, without leading zeros (what `{}` prints of an
/// unsigned integer).
pub open spec fn decimal(n: nat) -> Seq<char>
    decreases n,
{
    if n < 10 {
        seq![decimal_digit(n as int)]
    } else {
        decimal(n / 10).push(decimal_digit((n % 10) as int))
    }
}

/// The version text `a.b.c`.
pub open spec fn triple_text(a: nat, b: nat, c: nat) -> Seq<char> {
    decimal(a) + seq!['.'] + decimal(b) + seq!['.'] + decimal(c)
}

proof fn lemma_decimal(n: nat)
    ensures
        decimal(n).len() > 0,
        all_digits(decimal(n)),
        digits_value(decimal(n)) == n,
    decreases n,
{
    if n < 10 {
        let s = decimal(n);
        assert(s.drop_last() =~= Seq::<char>::empty());
        assert(digit_value(decimal_digit(n as int)) == n);
        assert(digits_value(s) == digits_value(s.drop_last()) * 10 + digit_value(s.last()));
        assert(is_digit(s[0]));
    } else {
        lemma_decimal(n / 10);
        let s = decimal(n);
        assert(s.drop_last() =~= decimal(n / 10));
        assert(digit_value(decimal_digit((n % 10) as int)) == n % 10);
        assert forall|i: int| 0 <= i < s.len() implies is_digit(#[trigger] s[i]) by {
            if i < s.len() - 1 {
                assert(s[i] == decimal(n / 10)[i]);
            }
        }
        assert(s.last() == decimal_digit((n % 10) as int));
        assert(digits_value(s) == digits_value(s.drop_last()) * 10 + digit_value(s.last()));
        assert((n / 10) * 10 + n % 10 == n);
    }
}

/// A text none of whose characters satisfies `f` has no match.
proof fn lemma_first_match_none(s: Seq<char>, f: spec_fn(char) -> bool)
    requires
        forall|i: int| 0 <= i < s.len() ==> !f(#[trigger] s[i]),
    ensures
        first_match(s, f) == s.len(),
    decreases s.len(),
{
    if s.len() > 0 {
        assert forall|i: int| 0 <= i < s.drop_first().len() implies !f(
            #[trigger] s.drop_first()[i],
        ) by {
            assert(s.drop_first()[i] == s[i + 1]);
        }
        lemma_first_match_none(s.drop_first(), f);
    }
}

/// The first match in `x + [c] + y` is `c`, when nothing in `x` matches.
proof fn lemma_first_match_at(x: Seq<char>, c: char, y: Seq<char>, f: spec_fn(char) -> bool)
    requires
        forall|i: int| 0 <= i < x.len() ==> !f(#[trigger] x[i]),
        f(c),
    ensures
        first_match(x + seq![c] + y, f) == x.len(),
    decreases x.len(),
{
    let s = x + seq![c] + y;
    if x.len() == 0 {
        assert(s[0] == c);
    } else {
        assert(s[0] == x[0]);
        assert forall|i: int| 0 <= i < x.drop_first().len() implies !f(
            #[trigger] x.drop_first()[i],
        ) by {
            assert(x.drop_first()[i] == x[i + 1]);
        }
        lemma_first_match_at(x.drop_first(), c, y, f);
        assert(s.drop_first() =~= x.drop_first() + seq![c] + y);
    }
}

proof fn lemma_digits_not_marks(s: Seq<char>)
    requires
        all_digits(s),
    ensures
        forall|i: int| 0 <= i < s.len() ==> !is_dot(#[trigger] s[i]) && !is_suffix_mark(s[i])
            && !crate::text::is_white_space(s[i]),
{
    assert forall|i: int| 0 <= i < s.len() implies !is_dot(#[trigger] s[i]) && !is_suffix_mark(
        s[i],
    ) && !crate::text::is_white_space(s[i]) by {
        assert(is_digit(s[i]));
    }
}

/// The first field of `x + "." + y`, when `x` holds no `.`, is `x`; the
/// fields after it are those of `y`.
proof fn lemma_dot_fields(x: Seq<char>, y: Seq<char>)
    requires
        all_digits(x),
    ensures
        dot_field(x + seq!['.'] + y, 0) == Some(x),
        dot_field(x + seq!['.'] + y, 1) == dot_field(y, 0),
        dot_field(x + seq!['.'] + y, 2) == dot_field(y, 1),
{
    let f = |c: char| is_dot(c);
    let s = x + seq!['.'] + y;
    lemma_digits_not_marks(x);
    lemma_first_match_at(x, '.', y, f);
    assert(s.take(x.len() as int) =~= x);
    assert(s.skip(x.len() as int + 1) =~= y);
}

proof fn lemma_parse_decimal(n: nat)
    requires
        n <= i64::MAX,
    ensures
        parse_i64(decimal(n)) == Some(n as int),
{
    lemma_decimal(n);
    assert(is_digit(decimal(n)[0]));
}

/// The key of the version text `a.b.c` of three decimal numbers (each at
/// most `i64::MAX`) is `(a, b, c, "")`.
pub proof fn law_version_key_of_decimal_triple(a: nat, b: nat, c: nat)
    requires
        a <= i64::MAX,
        b <= i64::MAX,
        c <= i64::MAX,
    ensures
        version_key_of(triple_text(a, b, c)) == (a as int, b as int, c as int, Seq::<char>::empty()),
{
    let da = decimal(a);
    let db = decimal(b);
    let dc = decimal(c);
    lemma_decimal(a);
    lemma_decimal(b);
    lemma_decimal(c);
    lemma_parse_decimal(a);
    lemma_parse_decimal(b);
    lemma_parse_decimal(c);
    let u = db + seq!['.'] + dc;
    let t = triple_text(a, b, c);
    assert(t =~= da + seq!['.'] + u);
    // no white space at either end
    assert(t[0] == da[0]);
    assert(t.last() == dc.last());
    assert(is_digit(da[0]));
    assert(is_digit(dc[dc.len() - 1]));
    assert(crate::text::trim_start(t) == t);
    assert(crate::text::trim_end(t) == t);
    assert(crate::text::trim(t) == t);
    // no suffix mark anywhere
    lemma_digits_not_marks(da);
    lemma_digits_not_marks(db);
    lemma_digits_not_marks(dc);
    let g = |c: char| is_suffix_mark(c);
    assert forall|i: int| 0 <= i < t.len() implies !g(#[trigger] t[i]) by {
        if i < da.len() {
            assert(t[i] == da[i]);
        } else if i == da.len() {
        } else if i < da.len() + 1 + db.len() {
            assert(t[i] == db[i - da.len() - 1]);
        } else if i == da.len() + 1 + db.len() {
        } else {
            assert(t[i] == dc[i - da.len() - 2 - db.len()]);
        }
    }
    lemma_first_match_none(t, g);
    assert(t.take(t.len() as int) == t);
    assert(t.skip(t.len() as int) =~= Seq::<char>::empty());
    // the three fields
    lemma_dot_fields(da, u);
    lemma_dot_fields(db, dc);
    let f = |c: char| is_dot(c);
    lemma_first_match_none(dc, f);
    assert(dc.take(dc.len() as int) == dc);
    assert(dot_field(dc, 0) == Some(dc));
}

} // verus!
