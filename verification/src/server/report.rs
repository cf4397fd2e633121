//! Numbers and columns of printed reports.
use vstd::prelude::*;
use crate::doubles::{
    as_double, half_even, law_multiples_are_exact, lemma_small_double, nearest_double, rounded,
};
use crate::text::{
    chars_of, contains_text, copy_chars, dec, decimal, occurs_at, push_chars, push_text, string_of,
};

verus! {

/// The unit that a size is given in: bytes, or that power of 1024.
pub open spec fn metric_unit(v: nat) -> nat {
    if v < 1024 {
        0
    } else if v < 1048576 {
        1
    } else if v < 1073741824 {
        2
    } else if v < 1099511627776 {
        3
    } else {
        4
    }
}

/// Bytes of a unit.
pub open spec fn unit_size(unit: nat) -> nat {
    if unit == 0 {
        1
    } else if unit == 1 {
        1024
    } else if unit == 2 {
        1048576
    } else if unit == 3 {
        1073741824
    } else {
        1099511627776
    }
}

/// The name of a unit.
pub open spec fn unit_name(unit: nat) -> Seq<char> {
    if unit == 0 {
        " B"@
    } else if unit == 1 {
        " KiB"@
    } else if unit == 2 {
        " MiB"@
    } else if unit == 3 {
        " GiB"@
    } else {
        " TiB"@
    }
}

/// A size in bytes as text: in the largest unit that it reaches, with three digits where
/// it takes fewer than four before the point.
pub open spec fn bytes_text(bytes: u64) -> Seq<char> {
    let v = nearest_double(bytes as nat);
    let unit = metric_unit(v);
    let size = unit_size(unit);
    if unit == 0 {
        dec(bytes as nat) + " B"@
    } else if v >= 100 * size {
        dec(half_even(v, size)) + unit_name(unit)
    } else if v >= 10 * size {
        let q = half_even(v * 10, size);
        dec(q / 10) + "."@ + dec(q % 10) + unit_name(unit)
    } else {
        let q = half_even(v * 100, size);
        dec(q / 100) + "."@ + dec(q / 10 % 10) + dec(q % 10) + unit_name(unit)
    }
}

/// A size in KiB as text.
pub open spec fn kib_text(kib: u64) -> Seq<char> {
    bytes_text(
        if kib * 1024 > u64::MAX {
            u64::MAX
        } else {
            (kib * 1024) as u64
        },
    )
}

/// A limit as text.
pub open spec fn limit_text(limit: Option<u64>) -> Seq<char> {
    match limit {
        Some(bytes) => bytes_text(bytes),
        None => "без лимита / н/д"@,
    }
}

fn bytes_chars(bytes: u64) -> (r: Vec<char>)
    ensures
        r@ == bytes_text(bytes),
{
    let v: u128 = as_double(bytes);
    let unit: u64 = if v < 1024 {
        0
    } else if v < 1048576 {
        1
    } else if v < 1073741824 {
        2
    } else if v < 1099511627776 {
        3
    } else {
        4
    };
    let size: u128 = if unit == 0 {
        1
    } else if unit == 1 {
        1024
    } else if unit == 2 {
        1048576
    } else if unit == 3 {
        1073741824
    } else {
        1099511627776
    };
    if unit == 0 {
        let mut out = decimal(bytes);
        push_text(&mut out, " B");
        return out;
    }
    let mut out = if v >= 100 * size {
        let q: u128 = rounded(v, size);
        proof {
            assert(q <= v / size + 1);
            assert(v / size <= v) by (nonlinear_arith)
                requires
                    size > 0,
            ;
            assert(v / size <= 0x1000000) by (nonlinear_arith)
                requires
                    v >= 100 * size,
                    v < 1024 * size || (size == 1099511627776 && v <= 0x1_0000_0000_0000_0800),
                    size > 0,
            ;
        }
        decimal(q as u64)
    } else if v >= 10 * size {
        let q: u128 = rounded(v * 10, size);
        proof {
            assert((v * 10) / (size as int) <= 1000) by (nonlinear_arith)
                requires
                    v < 100 * size,
                    size > 0,
            ;
        }
        let mut whole = decimal((q / 10) as u64);
        push_text(&mut whole, ".");
        let tenths = decimal((q % 10) as u64);
        push_chars(&mut whole, tenths.as_slice());
        whole
    } else {
        let q: u128 = rounded(v * 100, size);
        proof {
            assert((v * 100) / (size as int) <= 1000) by (nonlinear_arith)
                requires
                    v < 10 * size,
                    size > 0,
            ;
        }
        let mut whole = decimal((q / 100) as u64);
        push_text(&mut whole, ".");
        let tenths = decimal((q / 10 % 10) as u64);
        push_chars(&mut whole, tenths.as_slice());
        let hundredths = decimal((q % 10) as u64);
        push_chars(&mut whole, hundredths.as_slice());
        whole
    };
    if unit == 1 {
        push_text(&mut out, " KiB");
    } else if unit == 2 {
        push_text(&mut out, " MiB");
    } else if unit == 3 {
        push_text(&mut out, " GiB");
    } else {
        push_text(&mut out, " TiB");
    }
    out
}

/// A size in bytes as text.
pub fn format_metric_bytes(bytes: u64) -> (r: String)
    ensures
        r@ == bytes_text(bytes),
{
    let out = bytes_chars(bytes);
    string_of(out.as_slice())
}

fn kib_chars(kib: u64) -> (r: Vec<char>)
    ensures
        r@ == kib_text(kib),
{
    let bytes: u64 = if kib > u64::MAX / 1024 {
        u64::MAX
    } else {
        kib * 1024
    };
    bytes_chars(bytes)
}

/// A size in KiB as text.
pub fn format_metric_kib(kib: u64) -> (r: String)
    ensures
        r@ == kib_text(kib),
{
    let out = kib_chars(kib);
    string_of(out.as_slice())
}

/// A limit in bytes as text.
pub fn format_metric_limit(limit: Option<u64>) -> (r: String)
    ensures
        r@ == limit_text(limit),
{
    match limit {
        Some(bytes) => format_metric_bytes(bytes),
        None => {
            let out = chars_of("без лимита / н/д");
            string_of(out.as_slice())
        },
    }
}

// ---------------------------------------------------------------------------
// Columns
// ---------------------------------------------------------------------------

/// Spaces.
pub open spec fn spaces(n: nat) -> Seq<char> {
    Seq::new(n, |i: int| ' ')
}

/// A text at the right end of a column.
pub open spec fn pad_left(s: Seq<char>, width: nat) -> Seq<char> {
    if s.len() >= width {
        s
    } else {
        spaces((width - s.len()) as nat) + s
    }
}

/// A text at the left end of a column.
pub open spec fn pad_right(s: Seq<char>, width: nat) -> Seq<char> {
    if s.len() >= width {
        s
    } else {
        s + spaces((width - s.len()) as nat)
    }
}

fn space_chars(n: usize) -> (r: Vec<char>)
    ensures
        r@ == spaces(n as nat),
{
    let mut r: Vec<char> = Vec::new();
    let mut i: usize = 0;
    while i < n
        invariant
            i <= n,
            r@ =~= spaces(i as nat),
        decreases n - i,
    {
        r.push(' ');
        i = i + 1;
    }
    r
}

fn padded_left(s: &[char], width: usize) -> (r: Vec<char>)
    ensures
        r@ == pad_left(s@, width as nat),
{
    if s.len() >= width {
        return copy_chars(s);
    }
    let mut r = space_chars(width - s.len());
    push_chars(&mut r, s);
    r
}

/// A text at the left end of a column.
pub fn padded_right(s: &str, width: usize) -> (r: Vec<char>)
    ensures
        r@ == pad_right(s@, width as nat),
{
    let mut r = chars_of(s);
    if r.len() < width {
        let fill = space_chars(width - r.len());
        push_chars(&mut r, fill.as_slice());
    }
    r
}

/// Adds a size in bytes.
pub fn push_bytes_text(out: &mut Vec<char>, bytes: u64)
    ensures
        final(out)@ == old(out)@ + bytes_text(bytes),
{
    let c = bytes_chars(bytes);
    push_chars(out, c.as_slice());
}

/// Adds a size in KiB.
pub fn push_kib(out: &mut Vec<char>, kib: u64)
    ensures
        final(out)@ == old(out)@ + kib_text(kib),
{
    let c = kib_chars(kib);
    push_chars(out, c.as_slice());
}

/// Adds a limit.
pub fn push_limit(out: &mut Vec<char>, limit: Option<u64>)
    ensures
        final(out)@ == old(out)@ + limit_text(limit),
{
    match limit {
        Some(bytes) => {
            push_bytes_text(out, bytes);
        },
        None => {
            push_text(out, "без лимита / н/д");
        },
    }
}

/// Adds a number.
pub fn push_number(out: &mut Vec<char>, n: u64)
    ensures
        final(out)@ == old(out)@ + dec(n as nat),
{
    let c = decimal(n);
    push_chars(out, c.as_slice());
}

/// Adds a size in KiB at the right end of a column.
pub fn push_left_kib(out: &mut Vec<char>, kib: u64, width: usize)
    ensures
        final(out)@ == old(out)@ + pad_left(kib_text(kib), width as nat),
{
    let c = kib_chars(kib);
    let p = padded_left(c.as_slice(), width);
    push_chars(out, p.as_slice());
}

/// Adds a number at the right end of a column.
pub fn push_left_number(out: &mut Vec<char>, n: u64, width: usize)
    ensures
        final(out)@ == old(out)@ + pad_left(dec(n as nat), width as nat),
{
    let c = decimal(n);
    let p = padded_left(c.as_slice(), width);
    push_chars(out, p.as_slice());
}

/// Adds a text at the right end of a column.
pub fn push_left(out: &mut Vec<char>, s: &str, width: usize)
    ensures
        final(out)@ == old(out)@ + pad_left(s@, width as nat),
{
    let c = chars_of(s);
    let p = padded_left(c.as_slice(), width);
    push_chars(out, p.as_slice());
}

/// Whether a text ends with another.
pub closed spec fn ends_in(s: Seq<char>, p: Seq<char>) -> bool {
    p.len() <= s.len() && s.skip(s.len() - p.len()) == p
}

/// Whether a text shows another somewhere.
pub closed spec fn shows(s: Seq<char>, p: Seq<char>) -> bool {
    contains_text(s, p)
}

/// A report that begins with a part.
pub proof fn first_part(x: Seq<char>) -> (r: (Seq<char>, Seq<char>))
    ensures
        r.0 == x,
        r.1 == x,
        ends_in(x, x),
{
    assert(x.skip(0) =~= x);
    (x, x)
}

/// A report that goes on within a line: what it shows it still shows, and the line has
/// grown by the part.
pub proof fn next_part(s: Seq<char>, line: Seq<char>, x: Seq<char>) -> (r: (Seq<char>, Seq<char>))
    requires
        ends_in(s, line),
    ensures
        r.0 == s + x,
        r.1 == line + x,
        ends_in(s + x, line + x),
        forall|p: Seq<char>| #[trigger] shows(s, p) ==> shows(s + x, p),
{
    let t = s + x;
    let k = s.len() - line.len();
    assert(t.skip(t.len() - (line + x).len()) =~= s.skip(k) + x);
    lemma_report_grows(s, x);
    (s + x, line + x)
}

/// A report whose line ends with a part, which also begins the next line.
pub proof fn last_part(s: Seq<char>, line: Seq<char>, x: Seq<char>) -> (r: (Seq<char>, Seq<char>))
    requires
        ends_in(s, line),
    ensures
        r.0 == s + x,
        r.1 == x,
        ends_in(s + x, x),
        shows(s + x, line + x),
        forall|p: Seq<char>| #[trigger] shows(s, p) ==> shows(s + x, p),
{
    let (t, grown) = next_part(s, line, x);
    let at = t.len() - grown.len();
    assert(t.subrange(at, at + grown.len()) =~= t.skip(at));
    assert(occurs_at(t, grown, at));
    assert(t.skip(t.len() - x.len()) =~= x);
    (t, x)
}

proof fn lemma_report_grows(s: Seq<char>, x: Seq<char>)
    ensures
        forall|p: Seq<char>| #[trigger] shows(s, p) ==> shows(s + x, p),
{
    assert forall|p: Seq<char>| #[trigger] shows(s, p) implies shows(s + x, p) by {
        let at = choose|at: int| occurs_at(s, p, at);
        assert((s + x).subrange(at, at + p.len()) =~= s.subrange(at, at + p.len()));
        assert(occurs_at(s + x, p, at));
    }
}

/// What is shown is contained.
pub proof fn lemma_shown(s: Seq<char>)
    ensures
        forall|p: Seq<char>| shows(s, p) ==> #[trigger] contains_text(s, p),
{
}

/// A padded text is as wide as asked for, or its own width where that is more, and the
/// padding is blank.
pub proof fn law_padding_is_blank(s: Seq<char>, width: nat, i: int)
    ensures
        pad_left(s, width).len() == (if s.len() < width {
            width
        } else {
            s.len()
        }),
        pad_right(s, width).len() == pad_left(s, width).len(),
        pad_left(s, width).skip(pad_left(s, width).len() - s.len()) == s,
        pad_right(s, width).take(s.len() as int) == s,
        0 <= i < pad_left(s, width).len() - s.len() ==> pad_left(s, width)[i] == ' ',
        s.len() <= i < pad_right(s, width).len() ==> pad_right(s, width)[i] == ' ',
{
    assert(pad_left(s, width).skip(pad_left(s, width).len() - s.len()) =~= s);
    assert(pad_right(s, width).take(s.len() as int) =~= s);
}

/// Sizes in kibibytes are sizes in bytes, and a limit that is not there has a name.
pub proof fn law_kibibytes_are_bytes(kib: u64, bytes: u64)
    ensures
        kib * 1024 == bytes ==> kib_text(kib) == bytes_text(bytes),
        kib * 1024 > u64::MAX ==> kib_text(kib) == bytes_text(u64::MAX),
        limit_text(Some(bytes)) == bytes_text(bytes),
        limit_text(None) == "без лимита / н/д"@,
        bytes < 1024 ==> bytes_text(bytes) == dec(bytes as nat) + " B"@,
{
    if bytes < 1024 {
        lemma_small_double(bytes as nat);
    }
}

/// A whole number of a unit is shown as that number and the unit, with as many zeros behind
/// the point as make three digits.
pub proof fn law_whole_sizes_show_their_unit(n: nat)
    requires
        1 <= n < 1024,
    ensures
        n >= 100 ==> bytes_text((n * 1024) as u64) == dec(n) + " KiB"@,
        10 <= n < 100 ==> bytes_text((n * 1024) as u64) == dec(n) + "."@ + dec(0) + " KiB"@,
        n < 10 ==> bytes_text((n * 1024) as u64) == dec(n) + "."@ + dec(0) + dec(0) + " KiB"@,
        n >= 100 ==> bytes_text((n * 1048576) as u64) == dec(n) + " MiB"@,
        10 <= n < 100 ==> bytes_text((n * 1048576) as u64) == dec(n) + "."@ + dec(0) + " MiB"@,
        n < 10 ==> bytes_text((n * 1048576) as u64) == dec(n) + "."@ + dec(0) + dec(0) + " MiB"@,
        n >= 100 ==> bytes_text((n * 1073741824) as u64) == dec(n) + " GiB"@,
        10 <= n < 100 ==> bytes_text((n * 1073741824) as u64) == dec(n) + "."@ + dec(0) + " GiB"@,
        n < 10 ==> bytes_text((n * 1073741824) as u64) == dec(n) + "."@ + dec(0) + dec(0) + " GiB"@,
        n >= 100 ==> bytes_text((n * 1099511627776) as u64) == dec(n) + " TiB"@,
        10 <= n < 100 ==> bytes_text((n * 1099511627776) as u64) == dec(n) + "."@ + dec(0) + " TiB"@,
        n < 10 ==> bytes_text((n * 1099511627776) as u64) == dec(n) + "."@ + dec(0) + dec(0) + " TiB"@,
{
    lemma_whole_size(n, 1024);
    lemma_whole_size(n, 1048576);
    lemma_whole_size(n, 1073741824);
    lemma_whole_size(n, 1099511627776);
}

proof fn lemma_whole_size(n: nat, size: nat)
    requires
        1 <= n < 1024,
        size == 1024 || size == 1048576 || size == 1073741824 || size == 1099511627776,
    ensures
        nearest_double(n * size) == n * size,
        size <= n * size < 1024 * size,
        n * size <= u64::MAX,
        n >= 100 ==> n * size >= 100 * size,
        n < 100 ==> n * size < 100 * size,
        n >= 10 ==> n * size >= 10 * size,
        n < 10 ==> n * size < 10 * size,
        half_even(n * size, size) == n,
        half_even(n * size * 10, size) == 10 * n,
        half_even(n * size * 100, size) == 100 * n,
        10 * n / 10 == n && 10 * n % 10 == 0,
        100 * n / 100 == n && 100 * n / 10 % 10 == 0 && 100 * n % 10 == 0,
{
    assert(n * size < 1024 * size && n * size >= size) by (nonlinear_arith)
        requires
            1 <= n < 1024,
            size > 0,
    ;
    assert(n >= 100 ==> n * size >= 100 * size) by (nonlinear_arith);
    assert(n >= 10 ==> n * size >= 10 * size) by (nonlinear_arith);
    assert(n < 100 ==> n * size < 100 * size) by (nonlinear_arith)
        requires
            size > 0,
    ;
    assert(n < 10 ==> n * size < 10 * size) by (nonlinear_arith)
        requires
            size > 0,
    ;
    lemma_small_double(n * size);
    law_multiples_are_exact(n, size);
    law_multiples_are_exact(10 * n, size);
    law_multiples_are_exact(100 * n, size);
    assert(n * size * 10 == 10 * n * size) by (nonlinear_arith);
    assert(n * size * 100 == 100 * n * size) by (nonlinear_arith);
}

/// A size is shown to the nearest hundredth, tenth or whole of the largest unit it reaches.
pub proof fn law_sizes_are_rounded_to_three_digits(bytes: u64)
    requires
        1024 <= bytes < 9007199254740992,
    ensures
        bytes >= 102400 && bytes < 1048576 ==> bytes_text(bytes) == dec(
            half_even(bytes as nat, 1024),
        ) + " KiB"@,
        104857600 <= bytes < 1073741824 ==> bytes_text(bytes) == dec(
            half_even(bytes as nat, 1048576),
        ) + " MiB"@,
        107374182400 <= bytes < 1099511627776 ==> bytes_text(bytes) == dec(
            half_even(bytes as nat, 1073741824),
        ) + " GiB"@,
        109951162777600 <= bytes ==> bytes_text(bytes) == dec(
            half_even(bytes as nat, 1099511627776),
        ) + " TiB"@,
{
    lemma_small_double(bytes as nat);
}

} // verus!
