use vstd::prelude::*;

verus! {

pub assume_specification[ String::push ](s: &mut String, ch: char)
    ensures
        final(s)@ == old(s)@.push(ch),
;

/// The characters of `s`, in order.
pub fn chars_of(s: &str) -> (r: Vec<char>)
    ensures
        r@ == s@,
{
    let mut out: Vec<char> = Vec::new();
    for c in it: s.chars()
        invariant
            out@ == it.seq().take(it.index() as int),
    {
        out.push(c);
    }
    out
}

pub open spec fn digit_char(d: nat) -> char
    recommends
        d < 10,
{
    ((d + 48) as u8) as char
}

/// Decimal digits of `n`, most significant first, with no leading zeros.
pub open spec fn decimal(n: nat) -> Seq<char>
    decreases n,
{
    if n < 10 {
        seq![digit_char(n)]
    } else {
        decimal(n / 10).push(digit_char(n % 10))
    }
}

/// Decimal text of a signed integer: a minus sign before the digits of a negative one.
pub open spec fn signed_decimal(i: int) -> Seq<char> {
    if i < 0 {
        seq!['-'] + decimal((-i) as nat)
    } else {
        decimal(i as nat)
    }
}

/// `n` in decimal, left-padded with zeros to at least `width` characters.
pub open spec fn zero_padded(n: nat, width: nat) -> Seq<char> {
    let d = decimal(n);
    if d.len() < width {
        Seq::new((width - d.len()) as nat, |_i: int| '0') + d
    } else {
        d
    }
}

pub fn push_digit(s: &mut String, d: u64)
    requires
        d < 10,
    ensures
        final(s)@ == old(s)@.push(digit_char(d as nat)),
{
    let c = ((d + 48) as u8) as char;
    s.push(c);
}

/// Appends the decimal digits of `n` to `s`.
pub fn push_decimal(s: &mut String, n: u64)
    ensures
        final(s)@ == old(s)@ + decimal(n as nat),
    decreases n,
{
    if n < 10 {
        push_digit(s, n);
        assert(old(s)@.push(digit_char(n as nat)) == old(s)@ + decimal(n as nat));
    } else {
        push_decimal(s, n / 10);
        push_digit(s, n % 10);
        assert(old(s)@ + decimal(n as nat) == old(s)@ + decimal((n / 10) as nat) + seq![
            digit_char((n % 10) as nat),
        ]);
    }
}

/// The decimal text of `n`.
pub fn u64_to_decimal(n: u64) -> (r: String)
    ensures
        r@ == decimal(n as nat),
{
    let mut s = String::new();
    push_decimal(&mut s, n);
    assert(Seq::<char>::empty() + decimal(n as nat) == decimal(n as nat));
    s
}

/// Appends the decimal text of a signed `i` to `s`.
pub fn push_signed_decimal(s: &mut String, i: i64)
    ensures
        final(s)@ == old(s)@ + signed_decimal(i as int),
{
    if i < 0 {
        let m: u64 = ((-(i + 1)) as u64) + 1;
        s.push('-');
        push_decimal(s, m);
        assert(old(s)@.push('-') + decimal(m as nat) == old(s)@ + (seq!['-'] + decimal(m as nat)));
    } else {
        push_decimal(s, i as u64);
    }
}

/// Appends `n` in decimal, padded with leading zeros to `width` characters.
pub fn push_zero_padded(s: &mut String, n: u64, width: usize)
    ensures
        final(s)@ == old(s)@ + zero_padded(n as nat, width as nat),
{
    let d = u64_to_decimal(n);
    let len = d.as_str().unicode_len();
    let ghost start = s@;
    if len < width {
        let mut k: usize = len;
        while k < width
            invariant
                len <= k <= width,
                s@ == start + Seq::new((k - len) as nat, |_i: int| '0'),
            decreases width - k,
        {
            s.push('0');
            assert(Seq::new((k - len) as nat, |_i: int| '0').push('0') =~= Seq::new(
                (k + 1 - len) as nat,
                |_i: int| '0',
            ));
            k += 1;
        }
    }
    s.append(d.as_str());
    if len < width {
        assert(s@ == start + (Seq::new((width - len) as nat, |_i: int| '0') + decimal(n as nat)));
    }
}

/// The Unicode `White_Space` property, which `char::is_whitespace` and the `\s` class test.
pub open spec fn is_space(c: char) -> bool {
    ('\u{9}' <= c && c <= '\u{d}') || c == ' ' || c == '\u{85}' || c == '\u{a0}' || c
        == '\u{1680}' || ('\u{2000}' <= c && c <= '\u{200a}') || c == '\u{2028}' || c
        == '\u{2029}' || c == '\u{202f}' || c == '\u{205f}' || c == '\u{3000}'
}

pub fn space(c: char) -> (r: bool)
    ensures
        r == is_space(c),
{
    ('\u{9}' <= c && c <= '\u{d}') || c == ' ' || c == '\u{85}' || c == '\u{a0}' || c
        == '\u{1680}' || ('\u{2000}' <= c && c <= '\u{200a}') || c == '\u{2028}' || c
        == '\u{2029}' || c == '\u{202f}' || c == '\u{205f}' || c == '\u{3000}'
}

/// Number of leading whitespace characters of `s` from position `from` on.
pub open spec fn space_run(s: Seq<char>, from: int) -> int
    decreases s.len() - from,
{
    if from < 0 || from >= s.len() || !is_space(s[from]) {
        0
    } else {
        1 + space_run(s, from + 1)
    }
}

/// Number of trailing whitespace characters of `s[..to]`.
pub open spec fn space_run_back(s: Seq<char>, to: int) -> int
    decreases to,
{
    if to <= 0 || to > s.len() || !is_space(s[to - 1]) {
        0
    } else {
        1 + space_run_back(s, to - 1)
    }
}

/// `s` without leading and trailing whitespace.
pub open spec fn trim(s: Seq<char>) -> Seq<char> {
    let b = space_run(s, 0);
    let e = s.len() - space_run_back(s, s.len() as int);
    if b >= e {
        Seq::empty()
    } else {
        s.subrange(b, e)
    }
}

pub proof fn lemma_space_run_bounds(s: Seq<char>, from: int)
    ensures
        0 <= space_run(s, from),
        0 <= from <= s.len() ==> from + space_run(s, from) <= s.len(),
        forall|k: int| from <= k < from + space_run(s, from) ==> is_space(#[trigger] s[k]),
        0 <= from && from + space_run(s, from) < s.len() ==> !is_space(
            s[from + space_run(s, from)],
        ),
    decreases s.len() - from,
{
    if !(from < 0 || from >= s.len() || !is_space(s[from])) {
        lemma_space_run_bounds(s, from + 1);
    }
}

pub proof fn lemma_space_run_back_bounds(s: Seq<char>, to: int)
    ensures
        0 <= space_run_back(s, to),
        0 <= to <= s.len() ==> space_run_back(s, to) <= to,
        forall|k: int| to - space_run_back(s, to) <= k < to ==> is_space(#[trigger] s[k]),
        0 <= to <= s.len() && space_run_back(s, to) < to ==> !is_space(
            s[to - space_run_back(s, to) - 1],
        ),
    decreases to,
{
    if !(to <= 0 || to > s.len() || !is_space(s[to - 1])) {
        lemma_space_run_back_bounds(s, to - 1);
    }
}

/// Index of the first non-whitespace character at or after `from`.
pub fn skip_spaces(s: &Vec<char>, from: usize) -> (r: usize)
    requires
        from <= s@.len(),
    ensures
        r == from + space_run(s@, from as int),
{
    let mut i = from;
    proof {
        lemma_space_run_bounds(s@, from as int);
    }
    while i < s.len() && space(s[i])
        invariant
            from <= i <= s@.len(),
            from + space_run(s@, from as int) == i + space_run(s@, i as int),
        decreases s@.len() - i,
    {
        i += 1;
    }
    i
}

/// Index just past the last non-whitespace character before `to`.
pub fn skip_spaces_back(s: &Vec<char>, to: usize) -> (r: usize)
    requires
        to <= s@.len(),
    ensures
        r == to - space_run_back(s@, to as int),
{
    let mut i = to;
    proof {
        lemma_space_run_back_bounds(s@, to as int);
    }
    while i > 0 && space(s[i - 1])
        invariant
            0 <= i <= to <= s@.len(),
            to - space_run_back(s@, to as int) == i - space_run_back(s@, i as int),
        decreases i,
    {
        i -= 1;
    }
    i
}

/// A `String` holding `s[from..to]`.
pub fn string_of_range(s: &Vec<char>, from: usize, to: usize) -> (r: String)
    requires
        from <= to <= s@.len(),
    ensures
        r@ == s@.subrange(from as int, to as int),
{
    let mut out = String::new();
    let mut i = from;
    while i < to
        invariant
            from <= i <= to <= s@.len(),
            out@ == s@.subrange(from as int, i as int),
        decreases to - i,
    {
        out.push(s[i]);
        assert(s@.subrange(from as int, i + 1) == s@.subrange(from as int, i as int).push(
            s@[i as int],
        ));
        i += 1;
    }
    out
}

/// `s` with leading and trailing whitespace removed.
pub fn trimmed(s: &str) -> (r: Vec<char>)
    ensures
        r@ == trim(s@),
{
    let cs = chars_of(s);
    let b = skip_spaces(&cs, 0);
    let e = skip_spaces_back(&cs, cs.len());
    proof {
        lemma_space_run_bounds(cs@, 0);
        lemma_space_run_back_bounds(cs@, cs@.len() as int);
    }
    if b >= e {
        Vec::new()
    } else {
        let mut out: Vec<char> = Vec::new();
        let mut i = b;
        while i < e
            invariant
                b <= i <= e <= cs@.len(),
                out@ == cs@.subrange(b as int, i as int),
            decreases e - i,
        {
            out.push(cs[i]);
            assert(cs@.subrange(b as int, i + 1) == cs@.subrange(b as int, i as int).push(
                cs@[i as int],
            ));
            i += 1;
        }
        out
    }
}

/// Whether the two texts are equal.
pub fn same_text(a: &str, b: &str) -> (r: bool)
    ensures
        r == (a@ == b@),
{
    let x = chars_of(a);
    let y = chars_of(b);
    if x.len() != y.len() {
        return false;
    }
    let mut i: usize = 0;
    while i < x.len()
        invariant
            x@ == a@,
            y@ == b@,
            x@.len() == y@.len(),
            i <= x@.len(),
            forall|k: int| 0 <= k < i ==> x@[k] == y@[k],
        decreases x@.len() - i,
    {
        if x[i] != y[i] {
            assert(a@[i as int] != b@[i as int]);
            return false;
        }
        i += 1;
    }
    assert(x@ =~= y@);
    true
}

/// Whether `c` is the ASCII lowercase letter `l` or its uppercase form.
pub open spec fn ascii_ci_eq(c: char, l: char) -> bool {
    c == l || ((l as u32) >= 32 && (c as u32) == (l as u32) - 32)
}

/// Whether `s` equals the lowercase ASCII word `w` once lowercased.
pub open spec fn equals_ignoring_case(s: Seq<char>, w: Seq<char>) -> bool {
    s.len() == w.len() && forall|i: int| 0 <= i < w.len() ==> ascii_ci_eq(#[trigger] s[i], w[i])
}

/// Whether `s` equals the lowercase ASCII word `w` once lowercased.
pub fn eq_ignoring_case(s: &str, w: &str) -> (r: bool)
    ensures
        r == equals_ignoring_case(s@, w@),
{
    let sc = chars_of(s);
    let wc = chars_of(w);
    if sc.len() != wc.len() {
        return false;
    }
    let mut i: usize = 0;
    while i < wc.len()
        invariant
            wc@ == w@,
            sc@ == s@,
            wc@.len() == sc@.len(),
            i <= wc@.len(),
            forall|k: int| 0 <= k < i ==> ascii_ci_eq(#[trigger] sc@[k], wc@[k]),
        decreases wc@.len() - i,
    {
        let c = sc[i];
        let l = wc[i];
        if !(c == l || ((l as u32) >= 32 && (c as u32) == (l as u32) - 32)) {
            assert(!ascii_ci_eq(s@[i as int], w@[i as int]));
            return false;
        }
        i += 1;
    }
    true
}

/// Position of the first line break in `s` at or after `from`, or the length of `s`.
pub open spec fn line_end(s: Seq<char>, from: int) -> int
    decreases s.len() - from,
{
    if from < 0 || from >= s.len() {
        s.len() as int
    } else if s[from] == '\n' {
        from
    } else {
        line_end(s, from + 1)
    }
}

pub proof fn lemma_line_end_bounds(s: Seq<char>, from: int)
    ensures
        0 <= from <= s.len() ==> from <= line_end(s, from) <= s.len(),
    decreases s.len() - from,
{
    if 0 <= from < s.len() && s[from] != '\n' {
        lemma_line_end_bounds(s, from + 1);
    }
}

/// Position of the first line break in `s` at or after `from`, or the length of `s`.
pub fn find_line_end(s: &Vec<char>, from: usize) -> (r: usize)
    requires
        from <= s@.len(),
    ensures
        r == line_end(s@, from as int),
        from <= r <= s@.len(),
{
    proof {
        lemma_line_end_bounds(s@, from as int);
    }
    let mut i = from;
    while i < s.len() && s[i] != '\n'
        invariant
            from <= i <= s@.len(),
            line_end(s@, from as int) == line_end(s@, i as int),
        decreases s@.len() - i,
    {
        i += 1;
    }
    i
}

/// The path `name` inside the directory `dir`, joined as `PathBuf::join` does for a
/// relative `name`.
pub open spec fn path_join(dir: Seq<char>, name: Seq<char>) -> Seq<char> {
    if dir.len() == 0 {
        name
    } else if dir.last() == '/' {
        dir + name
    } else {
        dir + seq!['/'] + name
    }
}

/// The path `name` inside the directory `dir`.
pub fn join_path(dir: &str, name: &str) -> (r: String)
    ensures
        r@ == path_join(dir@, name@),
{
    let dc = chars_of(dir);
    let mut out = String::from_str(dir);
    if dc.len() > 0 && dc[dc.len() - 1] != '/' {
        out.push('/');
    }
    out.append(name);
    proof {
        if dir@.len() == 0 {
            assert(dir@ + name@ =~= name@);
        } else if dir@.last() != '/' {
            assert(dir@.push('/') + name@ =~= dir@ + seq!['/'] + name@);
        }
    }
    out
}

pub open spec fn is_digit(c: char) -> bool {
    '0' <= c && c <= '9'
}

pub open spec fn all_digits(s: Seq<char>) -> bool {
    forall|i: int| 0 <= i < s.len() ==> is_digit(#[trigger] s[i])
}

/// The number that a string of decimal digits denotes.
pub open spec fn digits_value(s: Seq<char>) -> nat
    decreases s.len(),
{
    if s.len() == 0 {
        0
    } else {
        digits_value(s.drop_last()) * 10 + ((s.last() as u32) - 48) as nat
    }
}

pub proof fn lemma_digit_char(d: nat)
    requires
        d < 10,
    ensures
        digit_char(d) as u32 == d + 48,
        is_digit(digit_char(d)),
{
    let x = (d + 48) as u8;
    assert(x as char as u32 == x as u32);
}

pub proof fn lemma_decimal_value(n: nat)
    ensures
        all_digits(decimal(n)),
        digits_value(decimal(n)) == n,
        decimal(n).len() >= 1,
    decreases n,
{
    lemma_digit_char((n % 10) as nat);
    if n >= 10 {
        lemma_decimal_value(n / 10);
        assert(decimal(n).drop_last() == decimal(n / 10));
        assert((n / 10) * 10 + n % 10 == n);
        assert(decimal(n).last() == digit_char((n % 10) as nat));
        assert(((decimal(n).last() as u32) - 48) as nat == n % 10);
        assert(digits_value(decimal(n)) == digits_value(decimal(n / 10)) * 10 + n % 10);
    } else {
        assert(n % 10 == n);
        assert(decimal(n).drop_last() =~= Seq::<char>::empty());
        assert(decimal(n).last() == digit_char(n));
        assert(digits_value(decimal(n)) == digits_value(Seq::<char>::empty()) * 10 + n);
    }
}

pub proof fn lemma_prefix_value_le(s: Seq<char>, k: int)
    requires
        all_digits(s),
        0 <= k <= s.len(),
    ensures
        digits_value(s.take(k)) <= digits_value(s),
    decreases s.len() - k,
{
    if k < s.len() {
        lemma_prefix_value_le(s, k + 1);
        assert(s.take(k + 1).drop_last() == s.take(k));
    } else {
        assert(s.take(k) == s);
    }
}

/// How many leading characters a sign takes in the decimal text of `i`.
pub open spec fn sign_len(i: int) -> int {
    if i < 0 {
        1
    } else {
        0
    }
}

pub open spec fn abs(i: int) -> nat {
    if i < 0 {
        (-i) as nat
    } else {
        i as nat
    }
}

pub proof fn lemma_signed_shape(i: int)
    ensures
        (i < 0) == (signed_decimal(i).len() > 0 && signed_decimal(i)[0] == '-'),
        signed_decimal(i).skip(sign_len(i)) == decimal(abs(i)),
        all_digits(decimal(abs(i))),
        digits_value(decimal(abs(i))) == abs(i),
        decimal(abs(i)).len() >= 1,
{
    lemma_decimal_value(abs(i));
    if i < 0 {
        assert(signed_decimal(i).skip(1) =~= decimal(abs(i)));
    } else {
        assert(is_digit(decimal(abs(i))[0]));
        assert(signed_decimal(i).skip(0) =~= decimal(abs(i)));
    }
}

/// Reads the decimal text of a tenant id: an optional minus sign and digits, exactly as
/// an `i64` prints.
pub fn parse_tenant_id(s: &str) -> (r: Option<i64>)
    ensures
        forall|i: i64| r == Some(i) <==> s@ == signed_decimal(i as int),
{
    let cs = chars_of(s);
    let neg = cs.len() > 0 && cs[0] == '-';
    let start: usize = if neg {
        1
    } else {
        0
    };
    let ghost digits = cs@.skip(start as int);
    let bound: u128 = 0x8000_0000_0000_0000;
    let mut acc: u128 = 0;
    let mut k: usize = start;
    let mut ok = start < cs.len();
    while ok && k < cs.len()
        invariant
            cs@ == s@,
            digits == cs@.skip(start as int),
            start <= k <= cs@.len(),
            ok ==> acc == digits_value(cs@.subrange(start as int, k as int)),
            ok ==> acc <= bound,
            bound == 0x8000_0000_0000_0000u128,
            (all_digits(digits) && digits_value(digits) <= bound && start < cs@.len()) ==> ok,
        decreases cs@.len() - k + (if ok {
            1int
        } else {
            0int
        }),
    {
        let c = cs[k];
        proof {
            assert(cs@.subrange(start as int, k + 1).drop_last() == cs@.subrange(
                start as int,
                k as int,
            ));
            if all_digits(digits) && digits_value(digits) <= bound {
                assert(digits[k - start] == c);
                assert(cs@.subrange(start as int, k + 1) == digits.take(k + 1 - start));
                lemma_prefix_value_le(digits, k + 1 - start);
            }
        }
        if !('0' <= c && c <= '9') {
            ok = false;
        } else {
            let d = ((c as u32) - 48) as u128;
            assert(acc * 10 <= 0x8000_0000_0000_0000u128 * 10) by (nonlinear_arith)
                requires
                    acc <= 0x8000_0000_0000_0000u128,
            ;
            let next = acc * 10 + d;
            if next > bound {
                ok = false;
            } else {
                acc = next;
                k += 1;
            }
        }
    }
    proof {
        if ok {
            assert(cs@.subrange(start as int, k as int) == digits);
        }
        assert forall|i: i64| #[trigger] signed_decimal(i as int) == s@ implies ok && acc == abs(
            i as int,
        ) && neg == (i < 0) by {
            lemma_signed_shape(i as int);
            assert(sign_len(i as int) == start);
        }
    }
    let mut value: i64 = 0;
    if ok {
        if neg {
            value = if acc == bound {
                i64::MIN
            } else {
                -(acc as i64)
            };
        } else if acc < bound {
            value = acc as i64;
        } else {
            ok = false;
        }
    }
    if !ok {
        return None;
    }
    let mut text = String::new();
    push_signed_decimal(&mut text, value);
    proof {
        assert(Seq::<char>::empty() + signed_decimal(value as int) == signed_decimal(value as int));
    }
    if same_text(text.as_str(), s) {
        Some(value)
    } else {
        None
    }
}

/// Reads the digits of `cs` from `start` on, if there is at least one and nothing else,
/// and their value is at most `limit`.
pub fn digits_at_most(cs: &Vec<char>, start: usize, limit: u128) -> (r: Option<u128>)
    requires
        start <= cs@.len(),
        limit <= u64::MAX as u128 + 1,
    ensures
        ({
            let body = cs@.skip(start as int);
            let ok = body.len() >= 1 && all_digits(body) && digits_value(body) <= limit;
            &&& r is Some == ok
            &&& r matches Some(v) ==> v == digits_value(body)
        }),
{
    let ghost body = cs@.skip(start as int);
    if start >= cs.len() {
        return None;
    }
    let mut acc: u128 = 0;
    let mut k = start;
    while k < cs.len()
        invariant
            body == cs@.skip(start as int),
            start <= k <= cs@.len(),
            limit <= u64::MAX as u128 + 1,
            all_digits(cs@.subrange(start as int, k as int)),
            acc == digits_value(cs@.subrange(start as int, k as int)),
            acc <= limit,
        decreases cs@.len() - k,
    {
        let c = cs[k];
        assert(cs@.subrange(start as int, k + 1).drop_last() == cs@.subrange(start as int, k as int));
        assert(cs@.subrange(start as int, k + 1) == body.take(k + 1 - start));
        if !('0' <= c && c <= '9') {
            assert(!is_digit(body[k - start]));
            return None;
        }
        assert(acc * 10 <= 0x1_0000_0000_0000_0000u128 * 10) by (nonlinear_arith)
            requires
                acc <= 0x1_0000_0000_0000_0000u128,
        ;
        let next = acc * 10 + ((c as u32) - 48) as u128;
        if next > limit {
            proof {
                assert(all_digits(cs@.subrange(start as int, k + 1)));
                if all_digits(body) {
                    lemma_prefix_value_le(body, k + 1 - start);
                }
            }
            return None;
        }
        acc = next;
        k += 1;
    }
    assert(cs@.subrange(start as int, k as int) == body);
    Some(acc)
}

/// What `str::parse::<u64>` reads from `s`: an optional plus sign, then digits, at most
/// `u64::MAX`.
pub open spec fn u64_text(s: Seq<char>) -> Option<nat> {
    let body = if s.len() > 0 && s[0] == '+' {
        s.skip(1)
    } else {
        s
    };
    if body.len() >= 1 && all_digits(body) && digits_value(body) <= u64::MAX {
        Some(digits_value(body))
    } else {
        None
    }
}

/// Reads a `u64` as `str::parse` does.
pub fn parse_u64(s: &Vec<char>) -> (r: Option<u64>)
    ensures
        match r {
            Some(v) => u64_text(s@) == Some(v as nat),
            None => u64_text(s@) is None,
        },
{
    let start: usize = if s.len() > 0 && s[0] == '+' {
        1
    } else {
        0
    };
    assert(s@.skip(0) =~= s@);
    match digits_at_most(s, start, u64::MAX as u128) {
        Some(v) => Some(v as u64),
        None => None,
    }
}

/// What `str::parse::<i64>` reads from `s`: an optional sign, then digits, within range.
pub open spec fn i64_text(s: Seq<char>) -> Option<int> {
    let neg = s.len() > 0 && s[0] == '-';
    let body = if s.len() > 0 && (s[0] == '-' || s[0] == '+') {
        s.skip(1)
    } else {
        s
    };
    let limit: int = if neg {
        0x8000_0000_0000_0000
    } else {
        0x7fff_ffff_ffff_ffff
    };
    if body.len() >= 1 && all_digits(body) && digits_value(body) <= limit {
        Some(
            if neg {
                -digits_value(body)
            } else {
                digits_value(body) as int
            },
        )
    } else {
        None
    }
}

/// Reads an `i64` as `str::parse` does.
pub fn parse_i64(s: &Vec<char>) -> (r: Option<i64>)
    ensures
        match r {
            Some(v) => i64_text(s@) == Some(v as int),
            None => i64_text(s@) is None,
        },
{
    let neg = s.len() > 0 && s[0] == '-';
    let start: usize = if s.len() > 0 && (s[0] == '-' || s[0] == '+') {
        1
    } else {
        0
    };
    assert(s@.skip(0) =~= s@);
    let limit: u128 = if neg {
        0x8000_0000_0000_0000
    } else {
        0x7fff_ffff_ffff_ffff
    };
    match digits_at_most(s, start, limit) {
        Some(v) => if neg {
            if v == 0x8000_0000_0000_0000 {
                Some(i64::MIN)
            } else {
                Some(-(v as i64))
            }
        } else {
            Some(v as i64)
        },
        None => None,
    }
}

} // verus!
