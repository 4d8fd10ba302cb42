//! Declaration labels: nonempty, trimmed, control-free text.
use crate::error::Error;
use vstd::prelude::*;
use vstd::string::StrSliceExecFns;
use vstd::string::StringExecFns;

verus! {

/// Unicode general category `Cc`, as `char::is_control` documents it.
pub open spec fn is_control_char(c: char) -> bool {
    let v = c as u32;
    v <= 0x1f || (0x7f <= v && v <= 0x9f)
}

/// The Unicode `White_Space` property, as `char::is_whitespace` documents it.
pub open spec fn is_whitespace_char(c: char) -> bool {
    let v = c as u32;
    ||| (0x09 <= v && v <= 0x0d)
    ||| v == 0x20
    ||| v == 0x85
    ||| v == 0xa0
    ||| v == 0x1680
    ||| (0x2000 <= v && v <= 0x200a)
    ||| v == 0x2028
    ||| v == 0x2029
    ||| v == 0x202f
    ||| v == 0x205f
    ||| v == 0x3000
}

/// A label is nonempty, equal to its own trim (no leading or trailing
/// whitespace), and free of control characters.
pub open spec fn is_label(s: Seq<char>) -> bool {
    &&& s.len() > 0
    &&& !is_whitespace_char(s[0])
    &&& !is_whitespace_char(s[s.len() - 1])
    &&& forall|i: int| 0 <= i < s.len() ==> !is_control_char(#[trigger] s[i])
}

/// The message of a rejected label of the given kind.
pub open spec fn label_message(kind: Seq<char>) -> Seq<char> {
    kind + " must be nonempty, trimmed, and contain no control characters"@
}

pub fn is_control(c: char) -> (b: bool)
    ensures
        b == is_control_char(c),
{
    let v = c as u32;
    v <= 0x1f || (0x7f <= v && v <= 0x9f)
}

pub fn is_whitespace(c: char) -> (b: bool)
    ensures
        b == is_whitespace_char(c),
{
    let v = c as u32;
    (0x09 <= v && v <= 0x0d) || v == 0x20 || v == 0x85 || v == 0xa0 || v == 0x1680 || (0x2000
        <= v && v <= 0x200a) || v == 0x2028 || v == 0x2029 || v == 0x202f || v == 0x205f || v
        == 0x3000
}

/// Whether `s` is a valid label.
pub fn is_label_text(s: &str) -> (b: bool)
    ensures
        b == is_label(s@),
{
    let n = s.unicode_len();
    if n == 0 {
        return false;
    }
    if is_whitespace(s.get_char(0)) || is_whitespace(s.get_char(n - 1)) {
        return false;
    }
    let mut i: usize = 0;
    while i < n
        invariant
            n == s@.len(),
            i <= n,
            forall|j: int| 0 <= j < i ==> !is_control_char(#[trigger] s@[j]),
        decreases n - i,
    {
        if is_control(s.get_char(i)) {
            return false;
        }
        i = i + 1;
    }
    true
}

/// Accept `value` as a label of the given kind, or reject it.
pub fn label(kind: &str, value: String) -> (r: Result<String, Error>)
    ensures
        is_label(value@) ==> r == Ok::<String, Error>(value),
        !is_label(value@) ==> r is Err && r->Err_0@ == label_message(kind@),
{
    if is_label_text(value.as_str()) {
        Ok(value)
    } else {
        let mut message = String::from_str(kind);
        message.append(" must be nonempty, trimmed, and contain no control characters");
        Err(Error::new(message))
    }
}

} // verus!

verus! {

/// Lexicographic order on character sequences (code point by code point, a
/// proper prefix first): the order of `String`'s `Ord`.
pub open spec fn text_lt(a: Seq<char>, b: Seq<char>) -> bool
    decreases a.len(),
{
    if a.len() == 0 {
        b.len() > 0
    } else if b.len() == 0 {
        false
    } else if a[0] != b[0] {
        (a[0] as u32) < (b[0] as u32)
    } else {
        text_lt(a.drop_first(), b.drop_first())
    }
}

pub proof fn lemma_text_lt_irreflexive(a: Seq<char>)
    ensures
        !text_lt(a, a),
    decreases a.len(),
{
    if a.len() > 0 {
        lemma_text_lt_irreflexive(a.drop_first());
    }
}

pub proof fn lemma_text_lt_transitive(a: Seq<char>, b: Seq<char>, c: Seq<char>)
    requires
        text_lt(a, b),
        text_lt(b, c),
    ensures
        text_lt(a, c),
    decreases a.len(),
{
    if a.len() > 0 && b.len() > 0 && c.len() > 0 {
        if a[0] == b[0] && b[0] == c[0] {
            lemma_text_lt_transitive(a.drop_first(), b.drop_first(), c.drop_first());
        }
    }
}

pub proof fn lemma_text_lt_total(a: Seq<char>, b: Seq<char>)
    requires
        a != b,
    ensures
        text_lt(a, b) || text_lt(b, a),
    decreases a.len(),
{
    if a.len() == 0 && b.len() == 0 {
        assert(a =~= b);
    }
    if a.len() > 0 && b.len() > 0 && a[0] == b[0] {
        if a.drop_first() == b.drop_first() {
            assert(a =~= seq![a[0]] + a.drop_first());
            assert(b =~= seq![b[0]] + b.drop_first());
        }
        lemma_text_lt_total(a.drop_first(), b.drop_first());
    } else if a.len() > 0 && b.len() > 0 {
        vstd::utf8::char_u32_cast(a[0], a[0] as u32);
        vstd::utf8::char_u32_cast(b[0], b[0] as u32);
        assert((a[0] as u32) != (b[0] as u32));
    }
}

pub proof fn lemma_text_lt_asymmetric(a: Seq<char>, b: Seq<char>)
    requires
        text_lt(a, b),
    ensures
        !text_lt(b, a),
{
    if text_lt(b, a) {
        lemma_text_lt_transitive(a, b, a);
        lemma_text_lt_irreflexive(a);
    }
}

/// Whether `a` sorts strictly before `b`.
pub fn text_less(a: &str, b: &str) -> (r: bool)
    ensures
        r == text_lt(a@, b@),
{
    let n = a.unicode_len();
    let m = b.unicode_len();
    let mut i: usize = 0;
    assert(a@.skip(0) =~= a@);
    assert(b@.skip(0) =~= b@);
    while i < n && i < m
        invariant
            n == a@.len(),
            m == b@.len(),
            i <= n,
            i <= m,
            text_lt(a@, b@) == text_lt(a@.skip(i as int), b@.skip(i as int)),
        decreases n - i,
    {
        let x = a.get_char(i);
        let y = b.get_char(i);
        if x != y {
            assert(a@.skip(i as int)[0] == x);
            assert(b@.skip(i as int)[0] == y);
            return (x as u32) < (y as u32);
        }
        assert(a@.skip(i as int).drop_first() =~= a@.skip(i as int + 1));
        assert(b@.skip(i as int).drop_first() =~= b@.skip(i as int + 1));
        i = i + 1;
    }
    i == n && i < m
}

/// Whether `a` and `b` are the same text.
pub fn text_eq(a: &str, b: &str) -> (r: bool)
    ensures
        r == (a@ == b@),
{
    let n = a.unicode_len();
    if n != b.unicode_len() {
        return false;
    }
    let mut i: usize = 0;
    while i < n
        invariant
            n == a@.len(),
            n == b@.len(),
            i <= n,
            forall|j: int| 0 <= j < i ==> a@[j] == b@[j],
        decreases n - i,
    {
        if a.get_char(i) != b.get_char(i) {
            return false;
        }
        i = i + 1;
    }
    assert(a@ =~= b@);
    true
}

/// The decimal digit character for `d < 10`.
pub open spec fn digit_char(d: nat) -> char {
    ((d + 48) as u32) as char
}

/// The base-ten numeral of `n`, as `usize`'s `Display` prints it.
pub open spec fn decimal_text(n: nat) -> Seq<char>
    decreases n,
{
    if n < 10 {
        seq![digit_char(n)]
    } else {
        decimal_text(n / 10).push(digit_char(n % 10))
    }
}

fn digit_str(d: usize) -> (s: &'static str)
    requires
        d < 10,
    ensures
        s@ == seq![digit_char(d as nat)],
{
    proof {
        reveal_strlit("0");
        reveal_strlit("1");
        reveal_strlit("2");
        reveal_strlit("3");
        reveal_strlit("4");
        reveal_strlit("5");
        reveal_strlit("6");
        reveal_strlit("7");
        reveal_strlit("8");
        reveal_strlit("9");
    }
    let s = if d == 0 {
        "0"
    } else if d == 1 {
        "1"
    } else if d == 2 {
        "2"
    } else if d == 3 {
        "3"
    } else if d == 4 {
        "4"
    } else if d == 5 {
        "5"
    } else if d == 6 {
        "6"
    } else if d == 7 {
        "7"
    } else if d == 8 {
        "8"
    } else {
        "9"
    };
    assert(s@ =~= seq![digit_char(d as nat)]);
    s
}

/// Append the decimal numeral of `n` to `out`.
pub fn push_decimal(out: &mut String, n: usize)
    ensures
        final(out)@ == old(out)@ + decimal_text(n as nat),
    decreases n,
{
    if n >= 10 {
        push_decimal(out, n / 10);
    }
    out.append(digit_str(n % 10));
    proof {
        if n >= 10 {
            assert(decimal_text(n as nat) == decimal_text((n / 10) as nat).push(
                digit_char((n % 10) as nat),
            ));
        }
    }
    assert(final(out)@ =~= old(out)@ + decimal_text(n as nat));
}

/// Append the decimal numeral of a `u64` to `out`.
pub fn push_decimal_u64(out: &mut String, n: u64)
    ensures
        final(out)@ == old(out)@ + decimal_text(n as nat),
    decreases n,
{
    if n >= 10 {
        push_decimal_u64(out, n / 10);
    }
    out.append(digit_str((n % 10) as usize));
    proof {
        if n >= 10 {
            assert(decimal_text(n as nat) == decimal_text((n / 10) as nat).push(
                digit_char((n % 10) as nat),
            ));
        }
    }
    assert(final(out)@ =~= old(out)@ + decimal_text(n as nat));
}

/// The decimal numeral of `n`.
pub fn decimal(n: usize) -> (s: String)
    ensures
        s@ == decimal_text(n as nat),
{
    let mut s = String::new();
    push_decimal(&mut s, n);
    assert(s@ =~= decimal_text(n as nat));
    s
}

/// `n / d` as a percentage in hundredths, rounded half up.
pub open spec fn percent_hundredths(n: nat, d: nat) -> nat {
    (2 * n * 10000 + d) / (2 * d)
}

/// `n / d` as a percentage with two decimals, rounded half up: `"66.67"` for two thirds.
pub open spec fn percent_text(n: nat, d: nat) -> Seq<char> {
    let q = percent_hundredths(n, d);
    decimal_text(q / 100) + seq!['.', digit_char((q % 100) / 10), digit_char(q % 10)]
}

/// Append the two-decimal percentage of `n / d` (at most one hundred) to `out`.
pub fn push_percent(out: &mut String, n: usize, d: usize)
    requires
        0 < d,
        n <= d,
    ensures
        final(out)@ == old(out)@ + percent_text(n as nat, d as nat),
{
    let wide: u128 = 2 * (n as u128) * 10000 + (d as u128);
    let q128: u128 = wide / (2 * (d as u128));
    proof {
        assert(q128 <= 10000) by (nonlinear_arith)
            requires
                q128 == (2 * (n as int) * 10000 + (d as int)) / (2 * (d as int)),
                0 < d,
                n <= d,
        {
            assert(2 * (n as int) * 10000 + (d as int) < 10001 * (2 * (d as int)));
        }
    }
    let q = q128 as usize;
    push_decimal(out, q / 100);
    out.append(".");
    out.append(digit_str((q % 100) / 10));
    out.append(digit_str(q % 10));
    proof {
        reveal_strlit(".");
    }
    assert(final(out)@ =~= old(out)@ + percent_text(n as nat, d as nat));
}

/// What `{:?}` prints for a string: the text quoted, with `str::escape_debug` escapes.
pub uninterp spec fn debug_text(s: Seq<char>) -> Seq<char>;

/// `format!("{:?}", s)`: the quoted, escaped form of `s`. The escapes follow
/// `char::escape_debug`'s Unicode tables, which this contract names as
/// `debug_text` rather than restating.
#[verifier::external_body]
pub fn debug_quoted(s: &str) -> (r: String)
    ensures
        r@ == debug_text(s@),
{
    format!("{:?}", s)
}

} // verus!
