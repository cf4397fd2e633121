//! Character-level text processing: decimal numbers, splitting, trimming and
//! joining, each stated over the sequence of characters of a string.
use vstd::prelude::*;

verus! {

/// `String::push` appends one character to the end of the string.
pub assume_specification[ String::push ](s: &mut String, c: char)
    ensures
        final(s)@ == old(s)@.push(c),
;

/// The characters of a string, in order.
pub fn chars_of(s: &str) -> (r: Vec<char>)
    ensures
        r@ == s@,
{
    let mut r: Vec<char> = Vec::new();
    for c in it: s.chars()
        invariant
            it.seq() == s@,
            r@ == it.seq().take(it.index() as int),
    {
        r.push(c);
        proof {
            assert(r@ =~= it.seq().take(it.index() as int + 1));
        }
    }
    proof {
        assert(s@.take(s@.len() as int) =~= s@);
    }
    r
}

/// The string made of the given characters.
pub fn string_of(c: &[char]) -> (r: String)
    ensures
        r@ == c@,
{
    let mut r = String::new();
    let mut i: usize = 0;
    while i < c.len()
        invariant
            i <= c@.len(),
            r@ == c@.take(i as int),
        decreases c@.len() - i,
    {
        r.push(c[i]);
        proof {
            assert(c@.take(i as int + 1) =~= c@.take(i as int).push(c@[i as int]));
        }
        i = i + 1;
    }
    proof {
        assert(c@.take(i as int) =~= c@);
    }
    r
}

/// A copy of a character slice.
pub fn copy_chars(c: &[char]) -> (r: Vec<char>)
    ensures
        r@ == c@,
{
    let mut r: Vec<char> = Vec::new();
    push_chars(&mut r, c);
    proof {
        assert(r@ =~= c@);
    }
    r
}

/// Appends the characters of `c` to `out`.
pub fn push_chars(out: &mut Vec<char>, c: &[char])
    ensures
        final(out)@ == old(out)@ + c@,
{
    let mut i: usize = 0;
    proof {
        assert(c@.take(0) =~= Seq::<char>::empty());
        assert(old(out)@ + c@.take(0) =~= old(out)@);
    }
    while i < c.len()
        invariant
            i <= c@.len(),
            out@ == old(out)@ + c@.take(i as int),
        decreases c@.len() - i,
    {
        out.push(c[i]);
        proof {
            assert(old(out)@ + c@.take(i as int + 1) =~= (old(out)@ + c@.take(i as int)).push(
                c@[i as int],
            ));
        }
        i = i + 1;
    }
    proof {
        assert(c@.take(i as int) =~= c@);
    }
}

/// Whether two character slices hold the same text.
pub fn same_chars(a: &[char], b: &[char]) -> (r: bool)
    ensures
        r == (a@ == b@),
{
    if a.len() != b.len() {
        return false;
    }
    let mut i: usize = 0;
    while i < a.len()
        invariant
            i <= a@.len(),
            a@.len() == b@.len(),
            a@.take(i as int) == b@.take(i as int),
        decreases a@.len() - i,
    {
        if a[i] != b[i] {
            proof {
                assert(a@[i as int] != b@[i as int]);
            }
            return false;
        }
        proof {
            assert(a@.take(i as int + 1) =~= a@.take(i as int).push(a@[i as int]));
            assert(b@.take(i as int + 1) =~= b@.take(i as int).push(b@[i as int]));
        }
        i = i + 1;
    }
    proof {
        assert(a@.take(i as int) =~= a@);
        assert(b@.take(i as int) =~= b@);
    }
    true
}

/// Whether two strings hold the same text.
pub fn same_text(a: &str, b: &str) -> (r: bool)
    ensures
        r == (a@ == b@),
{
    let x: String = a.to_owned();
    let y: String = b.to_owned();
    x == y
}

/// The views of a sequence of character vectors.
pub open spec fn views(v: Seq<Vec<char>>) -> Seq<Seq<char>> {
    Seq::new(v.len(), |i: int| v[i]@)
}

/// The views of a sequence of strings.
pub open spec fn texts(v: Seq<String>) -> Seq<Seq<char>> {
    Seq::new(v.len(), |i: int| v[i]@)
}

// ---------------------------------------------------------------------------
// Character classes
// ---------------------------------------------------------------------------

/// The Unicode `White_Space` property.
pub open spec fn is_space(c: char) -> bool {
    let n = c as u32;
    (9 <= n <= 13) || n == 0x20 || n == 0x85 || n == 0xa0 || n == 0x1680 || (0x2000 <= n <= 0x200a)
        || n == 0x2028 || n == 0x2029 || n == 0x202f || n == 0x205f || n == 0x3000
}

/// Whether `c` is white space.
pub fn char_is_space(c: char) -> (r: bool)
    ensures
        r == is_space(c),
{
    let n: u32 = c as u32;
    (9 <= n && n <= 13) || n == 0x20 || n == 0x85 || n == 0xa0 || n == 0x1680 || (0x2000 <= n && n
        <= 0x200a) || n == 0x2028 || n == 0x2029 || n == 0x202f || n == 0x205f || n == 0x3000
}

/// The Unicode general category `Cc`.
pub open spec fn is_control(c: char) -> bool {
    (c as u32) < 0x20 || 0x7f <= (c as u32) <= 0x9f
}

/// Whether `c` is a control character.
pub fn char_is_control(c: char) -> (r: bool)
    ensures
        r == is_control(c),
{
    let n: u32 = c as u32;
    n < 0x20 || (0x7f <= n && n <= 0x9f)
}

/// Whether some character of `s` is a control character.
pub open spec fn has_control(s: Seq<char>) -> bool {
    exists|i: int| 0 <= i < s.len() && is_control(#[trigger] s[i])
}

/// Whether a text holds a control character.
pub fn text_has_control(s: &[char]) -> (r: bool)
    ensures
        r == has_control(s@),
{
    let mut i: usize = 0;
    while i < s.len()
        invariant
            i <= s@.len(),
            forall|j: int| 0 <= j < i ==> !is_control(#[trigger] s@[j]),
        decreases s@.len() - i,
    {
        if char_is_control(s[i]) {
            return true;
        }
        i = i + 1;
    }
    false
}

/// A decimal digit.
pub open spec fn is_digit(c: char) -> bool {
    '0' <= c && c <= '9'
}

/// Whether every character is a decimal digit.
pub open spec fn all_digits(s: Seq<char>) -> bool {
    forall|i: int| 0 <= i < s.len() ==> is_digit(#[trigger] s[i])
}

// ---------------------------------------------------------------------------
// Decimal numbers
// ---------------------------------------------------------------------------

/// The character of a decimal digit.
pub open spec fn digit_char(d: nat) -> char
    recommends
        d < 10,
{
    (48 + d) as char
}

/// The decimal text of a number, without leading zeros.
pub open spec fn dec(n: nat) -> Seq<char>
    decreases n,
{
    if n < 10 {
        seq![digit_char(n)]
    } else {
        dec(n / 10).push(digit_char(n % 10))
    }
}

/// The number that a run of digits stands for.
pub open spec fn dec_value(s: Seq<char>) -> nat
    decreases s.len(),
{
    if s.len() == 0 {
        0
    } else {
        10 * dec_value(s.drop_last()) + ((s.last() as nat) - 48) as nat
    }
}

/// What parsing `s` as an unsigned integer of at most `max` gives: an optional
/// leading plus sign, then one or more digits.
pub open spec fn parse_unsigned(s: Seq<char>, max: nat) -> Option<nat> {
    let t = if s.len() >= 2 && s[0] == '+' {
        s.skip(1)
    } else {
        s
    };
    if t.len() > 0 && all_digits(t) && dec_value(t) <= max {
        Some(dec_value(t))
    } else {
        None
    }
}

/// A decimal text is never empty, holds digits only, and stands for its number.
pub proof fn lemma_dec(n: nat)
    ensures
        dec(n).len() >= 1,
        all_digits(dec(n)),
        dec_value(dec(n)) == n,
        n >= 10 ==> dec(n).len() >= 2,
    decreases n,
{
    if n < 10 {
        let s = dec(n);
        assert(s =~= seq![digit_char(n)]);
        assert(s.drop_last() =~= Seq::<char>::empty());
        assert(dec_value(Seq::<char>::empty()) == 0);
        assert(s.last() as nat == 48 + n);
    } else {
        lemma_dec(n / 10);
        let p = dec(n / 10);
        let s = dec(n);
        assert(s == p.push(digit_char(n % 10)));
        assert(s.drop_last() =~= p);
        assert(s.last() as nat == 48 + n % 10);
        assert forall|i: int| 0 <= i < s.len() implies is_digit(#[trigger] s[i]) by {
            if i < p.len() {
                assert(s[i] == p[i]);
            }
        }
    }
}

/// Equal decimal texts stand for equal numbers.
pub proof fn lemma_dec_injective(a: nat, b: nat)
    requires
        dec(a) == dec(b),
    ensures
        a == b,
{
    lemma_dec(a);
    lemma_dec(b);
}

/// A run of digits that does not begin with a spare zero is the decimal text of
/// its number.
pub proof fn lemma_dec_canonical(s: Seq<char>)
    requires
        s.len() >= 1,
        all_digits(s),
        s.len() > 1 ==> s[0] != '0',
    ensures
        s == dec(dec_value(s)),
        s.len() > 1 ==> dec_value(s) >= 10,
    decreases s.len(),
{
    let d = ((s.last() as nat) - 48) as nat;
    assert(is_digit(s[s.len() - 1]));
    assert(d < 10);
    let p = s.drop_last();
    if s.len() == 1 {
        assert(p =~= Seq::<char>::empty());
        assert(dec_value(p) == 0);
        assert(s =~= seq![digit_char(d)]);
    } else {
        assert forall|i: int| 0 <= i < p.len() implies is_digit(#[trigger] p[i]) by {
            assert(p[i] == s[i]);
        }
        assert(p[0] == s[0]);
        lemma_dec_canonical(p);
        let v = dec_value(p);
        assert(v >= 1) by {
            if p.len() == 1 {
                assert(p.drop_last() =~= Seq::<char>::empty());
                assert(dec_value(p.drop_last()) == 0);
                assert(is_digit(p[0]));
                assert(p[0] != '0');
            }
        }
        assert(dec_value(s) == 10 * v + d);
        assert((10 * v + d) / 10 == v && (10 * v + d) % 10 == d);
        assert(s =~= p.push(digit_char(d)));
    }
}

/// A decimal text of two or more digits does not begin with zero.
pub proof fn lemma_dec_no_leading_zero(n: nat)
    ensures
        dec(n).len() > 1 ==> dec(n)[0] != '0',
    decreases n,
{
    if n >= 10 {
        lemma_dec_no_leading_zero(n / 10);
        lemma_dec(n / 10);
        assert(dec(n)[0] == dec(n / 10)[0]);
        if n / 10 < 10 {
            assert(dec(n / 10) == seq![digit_char(n / 10)]);
        } else {
            lemma_dec(n / 10);
        }
    }
}

/// Prefixes of a digit run stand for smaller numbers.
pub proof fn lemma_dec_value_mono(s: Seq<char>, k: int)
    requires
        0 <= k <= s.len(),
        all_digits(s),
    ensures
        dec_value(s.take(k)) <= dec_value(s),
    decreases s.len(),
{
    if k == s.len() {
        assert(s.take(k) =~= s);
    } else {
        let p = s.drop_last();
        assert forall|i: int| 0 <= i < p.len() implies is_digit(#[trigger] p[i]) by {
            assert(p[i] == s[i]);
        }
        lemma_dec_value_mono(p, k);
        assert(p.take(k) =~= s.take(k));
    }
}

/// The decimal text of `n`.
pub fn decimal(n: u64) -> (r: Vec<char>)
    ensures
        r@ == dec(n as nat),
    decreases n,
{
    if n < 10 {
        let mut r: Vec<char> = Vec::new();
        r.push((48u8 + n as u8) as char);
        proof {
            assert(r@ =~= seq![digit_char(n as nat)]);
        }
        r
    } else {
        let mut r = decimal(n / 10);
        r.push((48u8 + (n % 10) as u8) as char);
        r
    }
}

/// Parses an unsigned decimal number of at most `max`.
pub fn parse_number(s: &[char], max: u64) -> (r: Option<u64>)
    ensures
        match r {
            Some(v) => parse_unsigned(s@, max as nat) == Some(v as nat),
            None => parse_unsigned(s@, max as nat) is None,
        },
{
    let mut i: usize = 0;
    if s.len() >= 2 && s[0] == '+' {
        i = 1;
    }
    let ghost t = if s@.len() >= 2 && s@[0] == '+' {
        s@.skip(1)
    } else {
        s@
    };
    let start: usize = i;
    proof {
        assert(t =~= s@.skip(start as int));
        assert(t.take(0) =~= Seq::<char>::empty());
    }
    if i >= s.len() {
        return None;
    }
    let mut v: u64 = 0;
    while i < s.len()
        invariant
            start <= i <= s@.len(),
            t == s@.skip(start as int),
            t == (if s@.len() >= 2 && s@[0] == '+' {
                s@.skip(1)
            } else {
                s@
            }),
            all_digits(t.take(i - start)),
            v == dec_value(t.take(i - start)),
            v <= max,
        decreases s@.len() - i,
    {
        let c = s[i];
        proof {
            assert(t[i - start] == c);
            assert(t.take(i - start + 1).drop_last() =~= t.take(i - start));
            assert(t.take(i - start + 1).last() == c);
        }
        if !('0' <= c && c <= '9') {
            proof {
                assert(!is_digit(t[i - start]));
            }
            return None;
        }
        let d: u64 = (c as u32 - 48) as u64;
        proof {
            assert forall|j: int| 0 <= j < i - start + 1 implies is_digit(
                #[trigger] t.take(i - start + 1)[j],
            ) by {
                if j < i - start {
                    assert(t.take(i - start)[j] == t.take(i - start + 1)[j]);
                }
            }
            assert(dec_value(t.take(i - start + 1)) == 10 * v + d);
        }
        if d > max || v > max / 10 || v * 10 > max - d {
            proof {
                assert(10 * v + d > max);
                if all_digits(t) {
                    lemma_dec_value_mono(t, i - start + 1);
                }
            }
            return None;
        }
        v = v * 10 + d;
        i = i + 1;
    }
    proof {
        assert(t.take(i - start) =~= t);
    }
    Some(v)
}

// ---------------------------------------------------------------------------
// Splitting and joining
// ---------------------------------------------------------------------------

/// The pieces between the occurrences of `c`: one more than there are
/// occurrences.
pub open spec fn split(s: Seq<char>, c: char) -> Seq<Seq<char>>
    decreases s.len(),
{
    if s.len() == 0 {
        seq![Seq::<char>::empty()]
    } else {
        let p = split(s.drop_last(), c);
        if s.last() == c {
            p.push(Seq::<char>::empty())
        } else {
            p.update(p.len() - 1, p[p.len() - 1].push(s.last()))
        }
    }
}

/// The pieces with `sep` between neighbours.
pub open spec fn join(parts: Seq<Seq<char>>, sep: Seq<char>) -> Seq<char>
    decreases parts.len(),
{
    if parts.len() == 0 {
        Seq::<char>::empty()
    } else if parts.len() == 1 {
        parts[0]
    } else {
        join(parts.drop_last(), sep) + sep + parts.last()
    }
}

/// Splitting always gives at least one piece.
pub proof fn lemma_split_nonempty(s: Seq<char>, c: char)
    ensures
        split(s, c).len() >= 1,
    decreases s.len(),
{
    if s.len() > 0 {
        lemma_split_nonempty(s.drop_last(), c);
    }
}

/// Text without the separator extends the last piece.
pub proof fn lemma_split_extend(s: Seq<char>, t: Seq<char>, c: char)
    requires
        !t.contains(c),
    ensures
        split(s + t, c) == split(s, c).update(
            split(s, c).len() - 1,
            split(s, c)[split(s, c).len() - 1] + t,
        ),
    decreases t.len(),
{
    let p = split(s, c);
    lemma_split_nonempty(s, c);
    if t.len() == 0 {
        assert(s + t =~= s);
        assert(p[p.len() - 1] + t =~= p[p.len() - 1]);
        assert(p.update(p.len() - 1, p[p.len() - 1]) =~= p);
    } else {
        let u = t.drop_last();
        assert(t.contains(t[t.len() - 1]));
        assert forall|x: char| u.contains(x) implies t.contains(x) by {
            let i = choose|i: int| 0 <= i < u.len() && u[i] == x;
            assert(t[i] == x);
        }
        lemma_split_extend(s, u, c);
        assert((s + t).drop_last() =~= s + u);
        assert((s + t).last() == t.last());
        let q = split(s + u, c);
        assert(q[q.len() - 1].push(t.last()) =~= p[p.len() - 1] + t);
        assert(split(s + t, c) =~= p.update(p.len() - 1, p[p.len() - 1] + t));
    }
}

/// Splitting a join at the separator gives the pieces back, where no piece holds
/// the separator.
pub proof fn lemma_split_join(parts: Seq<Seq<char>>, c: char)
    requires
        parts.len() >= 1,
        forall|i: int| 0 <= i < parts.len() ==> !(#[trigger] parts[i]).contains(c),
    ensures
        split(join(parts, seq![c]), c) == parts,
    decreases parts.len(),
{
    let e = Seq::<char>::empty();
    if parts.len() == 1 {
        lemma_split_extend(e, parts[0], c);
        assert(e + parts[0] =~= parts[0]);
        assert(split(e, c) =~= seq![e]);
        assert(split(parts[0], c) =~= parts);
    } else {
        let d = parts.drop_last();
        assert forall|i: int| 0 <= i < d.len() implies !(#[trigger] d[i]).contains(c) by {
            assert(d[i] == parts[i]);
        }
        lemma_split_join(d, c);
        let j = join(d, seq![c]);
        let js = j + seq![c];
        assert(js.drop_last() =~= j);
        assert(split(js, c) == d.push(e));
        assert(parts.last() == parts[parts.len() - 1]);
        lemma_split_extend(js, parts.last(), c);
        assert(e + parts.last() =~= parts.last());
        assert(d.push(e).update(d.len() as int, parts.last()) =~= parts);
    }
}

/// Joining what a split gave restores the text.
pub proof fn lemma_join_split(s: Seq<char>, c: char)
    ensures
        join(split(s, c), seq![c]) == s,
        forall|i: int| 0 <= i < split(s, c).len() ==> !(#[trigger] split(s, c)[i]).contains(c),
    decreases s.len(),
{
    let sep = seq![c];
    if s.len() > 0 {
        let d = s.drop_last();
        lemma_join_split(d, c);
        lemma_split_nonempty(d, c);
        let p = split(d, c);
        let q = split(s, c);
        if s.last() == c {
            assert(q.drop_last() =~= p);
            assert(join(q, sep) =~= s);
            assert forall|i: int| 0 <= i < q.len() implies !(#[trigger] q[i]).contains(c) by {
                if i < p.len() {
                    assert(q[i] == p[i]);
                }
            }
        } else {
            let last = p[p.len() - 1];
            assert(q.drop_last() =~= p.drop_last());
            assert(q.last() =~= last.push(s.last()));
            assert(join(q, sep) =~= join(p, sep).push(s.last()));
            assert(s =~= d.push(s.last()));
            assert forall|i: int| 0 <= i < q.len() implies !(#[trigger] q[i]).contains(c) by {
                if i < p.len() - 1 {
                    assert(q[i] == p[i]);
                } else {
                    assert(!last.contains(c));
                    assert(q[i] == last.push(s.last()));
                    if q[i].contains(c) {
                        let k = choose|k: int| 0 <= k < q[i].len() && q[i][k] == c;
                        assert(k < last.len());
                        assert(last[k] == c);
                    }
                }
            }
        }
    } else {
        assert(split(s, c) =~= seq![Seq::<char>::empty()]);
        assert(join(split(s, c), sep) =~= s);
    }
}

/// Splits a text at every occurrence of `c`.
pub fn split_on(s: &[char], c: char) -> (r: Vec<Vec<char>>)
    ensures
        views(r@) == split(s@, c),
        r@.len() >= 1,
{
    let mut done: Vec<Vec<char>> = Vec::new();
    let mut cur: Vec<char> = Vec::new();
    let mut i: usize = 0;
    proof {
        assert(s@.take(0) =~= Seq::<char>::empty());
        assert(views(done@).push(cur@) =~= seq![Seq::<char>::empty()]);
    }
    while i < s.len()
        invariant
            i <= s@.len(),
            views(done@).push(cur@) == split(s@.take(i as int), c),
        decreases s@.len() - i,
    {
        let x = s[i];
        let ghost p = split(s@.take(i as int), c);
        proof {
            assert(s@.take(i as int + 1).drop_last() =~= s@.take(i as int));
            assert(s@.take(i as int + 1).last() == x);
        }
        if x == c {
            done.push(cur);
            cur = Vec::new();
            proof {
                assert(views(done@) =~= p);
                assert(cur@ =~= Seq::<char>::empty());
            }
        } else {
            let ghost was = cur@;
            cur.push(x);
            proof {
                assert(p[p.len() - 1] == was);
                assert(views(done@).push(cur@) =~= p.update(p.len() - 1, was.push(x)));
            }
        }
        i = i + 1;
    }
    let ghost q = views(done@).push(cur@);
    done.push(cur);
    proof {
        assert(s@.take(i as int) =~= s@);
        assert(views(done@) =~= q);
    }
    done
}

/// Joins texts with `sep` between neighbours.
pub fn join_with(parts: &Vec<Vec<char>>, sep: &[char]) -> (r: Vec<char>)
    ensures
        r@ == join(views(parts@), sep@),
{
    let mut r: Vec<char> = Vec::new();
    let mut i: usize = 0;
    let ghost v = views(parts@);
    proof {
        assert(v.take(0) =~= Seq::<Seq<char>>::empty());
    }
    while i < parts.len()
        invariant
            i <= parts@.len(),
            v == views(parts@),
            r@ == join(v.take(i as int), sep@),
        decreases parts@.len() - i,
    {
        if i > 0 {
            push_chars(&mut r, sep);
        }
        push_chars(&mut r, parts[i].as_slice());
        proof {
            let w = v.take(i as int + 1);
            assert(w.drop_last() =~= v.take(i as int));
            assert(w.last() == parts@[i as int]@);
            assert(r@ =~= join(w, sep@));
        }
        i = i + 1;
    }
    proof {
        assert(v.take(i as int) =~= v);
    }
    r
}

/// The maximal runs of characters that are not white space.
pub open spec fn words(s: Seq<char>) -> Seq<Seq<char>>
    decreases s.len(),
{
    if s.len() == 0 {
        Seq::empty()
    } else {
        let d = s.drop_last();
        let p = words(d);
        if is_space(s.last()) {
            p
        } else if d.len() == 0 || is_space(d.last()) {
            p.push(seq![s.last()])
        } else {
            p.update(p.len() - 1, p[p.len() - 1].push(s.last()))
        }
    }
}

/// Splits a text into its words.
pub fn split_words(s: &[char]) -> (r: Vec<Vec<char>>)
    ensures
        views(r@) == words(s@),
{
    let mut done: Vec<Vec<char>> = Vec::new();
    let mut cur: Vec<char> = Vec::new();
    let mut i: usize = 0;
    proof {
        assert(s@.take(0) =~= Seq::<char>::empty());
        assert(views(done@) =~= Seq::<Seq<char>>::empty());
    }
    while i < s.len()
        invariant
            i <= s@.len(),
            cur@.len() == 0 ==> views(done@) == words(s@.take(i as int)),
            cur@.len() > 0 ==> views(done@).push(cur@) == words(s@.take(i as int)),
            cur@.len() == 0 <==> (i == 0 || is_space(s@[i - 1])),
        decreases s@.len() - i,
    {
        let x = s[i];
        let ghost p = words(s@.take(i as int));
        let ghost d = s@.take(i as int + 1);
        proof {
            assert(d.drop_last() =~= s@.take(i as int));
            assert(d.last() == x);
            if i > 0 {
                assert(s@.take(i as int).last() == s@[i - 1]);
            }
        }
        if char_is_space(x) {
            if cur.len() > 0 {
                done.push(cur);
                cur = Vec::new();
                proof {
                    assert(views(done@) =~= p);
                }
            }
        } else {
            let ghost was = cur@;
            cur.push(x);
            proof {
                if was.len() == 0 {
                    assert(cur@ =~= seq![x]);
                    assert(views(done@).push(cur@) =~= p.push(seq![x]));
                } else {
                    assert(p[p.len() - 1] == was);
                    assert(views(done@).push(cur@) =~= p.update(p.len() - 1, was.push(x)));
                }
            }
        }
        i = i + 1;
    }
    proof {
        assert(s@.take(i as int) =~= s@);
    }
    if cur.len() > 0 {
        let ghost q = views(done@).push(cur@);
        done.push(cur);
        proof {
            assert(views(done@) =~= q);
        }
    }
    done
}

/// The text without white space at its start.
pub open spec fn trim_start(s: Seq<char>) -> Seq<char>
    decreases s.len(),
{
    if s.len() > 0 && is_space(s[0]) {
        trim_start(s.skip(1))
    } else {
        s
    }
}

/// The text without white space at its end.
pub open spec fn trim_end(s: Seq<char>) -> Seq<char>
    decreases s.len(),
{
    if s.len() > 0 && is_space(s.last()) {
        trim_end(s.drop_last())
    } else {
        s
    }
}

/// The text without white space at either end.
pub open spec fn trim(s: Seq<char>) -> Seq<char> {
    trim_end(trim_start(s))
}

/// Removes white space at both ends.
pub fn trimmed(s: &[char]) -> (r: Vec<char>)
    ensures
        r@ == trim(s@),
{
    let mut a: usize = 0;
    proof {
        assert(s@.skip(0) =~= s@);
    }
    while a < s.len() && char_is_space(s[a])
        invariant
            a <= s@.len(),
            trim_start(s@) == trim_start(s@.skip(a as int)),
        decreases s@.len() - a,
    {
        proof {
            assert(s@.skip(a as int)[0] == s@[a as int]);
            assert(s@.skip(a as int).skip(1) =~= s@.skip(a as int + 1));
        }
        a = a + 1;
    }
    let ghost t = s@.skip(a as int);
    proof {
        if a < s@.len() {
            assert(t[0] == s@[a as int]);
        }
        assert(trim_start(s@) == t);
    }
    let mut b: usize = s.len();
    proof {
        assert(t.take(b - a) =~= t);
    }
    while b > a && char_is_space(s[b - 1])
        invariant
            a <= b <= s@.len(),
            t == s@.skip(a as int),
            trim_end(t) == trim_end(t.take(b - a)),
        decreases b,
    {
        proof {
            assert(t.take(b - a).last() == s@[b - 1]);
            assert(t.take(b - a).drop_last() =~= t.take(b - a - 1));
        }
        b = b - 1;
    }
    proof {
        if b > a {
            assert(t.take(b - a).last() == s@[b - 1]);
        }
        assert(trim_end(t) == t.take(b - a));
    }
    let mut r: Vec<char> = Vec::new();
    let mut i: usize = a;
    while i < b
        invariant
            a <= i <= b <= s@.len(),
            r@ == s@.subrange(a as int, i as int),
        decreases b - i,
    {
        r.push(s[i]);
        proof {
            assert(s@.subrange(a as int, i as int + 1) =~= s@.subrange(a as int, i as int).push(
                s@[i as int],
            ));
        }
        i = i + 1;
    }
    proof {
        assert(r@ =~= t.take(b - a));
    }
    r
}

/// A copy of the characters from `from` up to `to`.
pub fn sub_chars(s: &[char], from: usize, to: usize) -> (r: Vec<char>)
    requires
        from <= to <= s@.len(),
    ensures
        r@ == s@.subrange(from as int, to as int),
{
    let mut r: Vec<char> = Vec::new();
    let mut i: usize = from;
    while i < to
        invariant
            from <= i <= to <= s@.len(),
            r@ == s@.subrange(from as int, i as int),
        decreases to - i,
    {
        r.push(s[i]);
        proof {
            assert(s@.subrange(from as int, i as int + 1) =~= s@.subrange(
                from as int,
                i as int,
            ).push(s@[i as int]));
        }
        i = i + 1;
    }
    r
}

/// Whether `s` begins with `p`.
pub open spec fn starts_with(s: Seq<char>, p: Seq<char>) -> bool {
    p.len() <= s.len() && s.take(p.len() as int) == p
}

/// Whether `p` stands in `s` at position `at`.
pub open spec fn occurs_at(s: Seq<char>, p: Seq<char>, at: int) -> bool {
    0 <= at && at + p.len() <= s.len() && s.subrange(at, at + p.len()) == p
}

/// Whether `p` stands somewhere in `s`.
pub open spec fn contains_text(s: Seq<char>, p: Seq<char>) -> bool {
    exists|at: int| occurs_at(s, p, at)
}

/// Whether `p` stands in `s` at position `at`.
pub fn text_at(s: &[char], p: &[char], at: usize) -> (r: bool)
    ensures
        r == occurs_at(s@, p@, at as int),
{
    if at > s.len() || s.len() - at < p.len() {
        return false;
    }
    let n: usize = s.len();
    let mut i: usize = 0;
    while i < p.len()
        invariant
            i <= p@.len(),
            n == s@.len(),
            at + p@.len() <= s@.len(),
            forall|j: int| 0 <= j < i ==> s@[at + j] == #[trigger] p@[j],
        decreases p@.len() - i,
    {
        if s[at + i] != p[i] {
            proof {
                assert(s@.subrange(at as int, at + p@.len())[i as int] == s@[at + i]);
            }
            return false;
        }
        i = i + 1;
    }
    proof {
        assert(s@.subrange(at as int, at + p@.len()) =~= p@);
    }
    true
}

/// Whether a text begins with `p`.
pub fn text_starts_with(s: &[char], p: &[char]) -> (r: bool)
    ensures
        r == starts_with(s@, p@),
{
    let r = text_at(s, p, 0);
    proof {
        if p@.len() <= s@.len() {
            assert(s@.subrange(0, p@.len() as int) =~= s@.take(p@.len() as int));
        }
    }
    r
}

/// The first position at which `p` stands in a text.
pub fn find_text(s: &[char], p: &[char]) -> (r: Option<usize>)
    ensures
        match r {
            Some(at) => occurs_at(s@, p@, at as int) && forall|j: int|
                0 <= j < at ==> !occurs_at(s@, p@, j),
            None => !contains_text(s@, p@),
        },
{
    if p.len() > s.len() {
        return None;
    }
    let last: usize = s.len() - p.len();
    let mut at: usize = 0;
    loop
        invariant
            at <= last,
            last + p@.len() == s@.len(),
            forall|j: int| 0 <= j < at ==> !occurs_at(s@, p@, j),
        decreases last - at,
    {
        if text_at(s, p, at) {
            return Some(at);
        }
        if at == last {
            return None;
        }
        at = at + 1;
    }
}

// ---------------------------------------------------------------------------
// Order
// ---------------------------------------------------------------------------

/// Lexicographic order by code point.
pub open spec fn text_lt(a: Seq<char>, b: Seq<char>) -> bool
    decreases a.len(),
{
    if b.len() == 0 {
        false
    } else if a.len() == 0 {
        true
    } else if a[0] != b[0] {
        a[0] < b[0]
    } else {
        text_lt(a.skip(1), b.skip(1))
    }
}

/// The order is total.
pub proof fn lemma_text_lt_total(a: Seq<char>, b: Seq<char>)
    ensures
        text_lt(a, b) || text_lt(b, a) || a == b,
        !(text_lt(a, b) && text_lt(b, a)),
        a == b ==> !text_lt(a, b),
    decreases a.len(),
{
    if a.len() == 0 || b.len() == 0 {
        if a.len() == 0 && b.len() == 0 {
            assert(a =~= b);
        }
    } else if a[0] == b[0] {
        lemma_text_lt_total(a.skip(1), b.skip(1));
        if a.skip(1) == b.skip(1) {
            assert(a =~= seq![a[0]] + a.skip(1));
            assert(b =~= seq![b[0]] + b.skip(1));
        }
    }
}

/// The order is transitive.
pub proof fn lemma_text_lt_trans(a: Seq<char>, b: Seq<char>, c: Seq<char>)
    requires
        text_lt(a, b),
        text_lt(b, c),
    ensures
        text_lt(a, c),
    decreases a.len(),
{
    if a.len() > 0 && a[0] == b[0] && b[0] == c[0] {
        lemma_text_lt_trans(a.skip(1), b.skip(1), c.skip(1));
    }
}

/// Whether `a` precedes `b`.
pub fn text_less(a: &[char], b: &[char]) -> (r: bool)
    ensures
        r == text_lt(a@, b@),
{
    let mut i: usize = 0;
    proof {
        assert(a@.skip(0) =~= a@);
        assert(b@.skip(0) =~= b@);
    }
    loop
        invariant
            i <= a@.len(),
            i <= b@.len(),
            text_lt(a@, b@) == text_lt(a@.skip(i as int), b@.skip(i as int)),
        decreases a@.len() - i,
    {
        if i == b.len() {
            return false;
        }
        if i == a.len() {
            return true;
        }
        proof {
            assert(a@.skip(i as int)[0] == a@[i as int]);
            assert(b@.skip(i as int)[0] == b@[i as int]);
            assert(a@.skip(i as int).skip(1) =~= a@.skip(i as int + 1));
            assert(b@.skip(i as int).skip(1) =~= b@.skip(i as int + 1));
        }
        if a[i] != b[i] {
            return a[i] < b[i];
        }
        i = i + 1;
    }
}

// ---------------------------------------------------------------------------
// Pieces
// ---------------------------------------------------------------------------

/// Appends a text.
pub fn push_text(out: &mut Vec<char>, s: &str)
    ensures
        final(out)@ == old(out)@ + s@,
{
    let c = chars_of(s);
    push_chars(out, c.as_slice());
}

/// Whether the characters are those of `s`.
pub fn text_is(c: &[char], s: &str) -> (r: bool)
    ensures
        r == (c@ == s@),
{
    let d = chars_of(s);
    same_chars(c, d.as_slice())
}

/// What follows the prefix `p`.
pub fn strip_text(s: &[char], p: &str) -> (r: Option<Vec<char>>)
    ensures
        match r {
            Some(rest) => starts_with(s@, p@) && s@ == p@ + rest@ && rest@ == s@.skip(
                p@.len() as int,
            ),
            None => !starts_with(s@, p@),
        },
{
    let c = chars_of(p);
    if !text_starts_with(s, c.as_slice()) {
        return None;
    }
    let rest = sub_chars(s, c.len(), s.len());
    proof {
        assert(rest@ =~= s@.skip(p@.len() as int));
        assert(s@ =~= s@.take(p@.len() as int) + rest@);
    }
    Some(rest)
}

/// The pieces of some texts that are left after trimming, without the empty ones.
pub open spec fn trimmed_items(pieces: Seq<Seq<char>>) -> Seq<Seq<char>>
    decreases pieces.len(),
{
    if pieces.len() == 0 {
        Seq::empty()
    } else {
        let done = trimmed_items(pieces.drop_last());
        let piece = trim(pieces.last());
        if piece.len() > 0 {
            done.push(piece)
        } else {
            done
        }
    }
}

/// The items of a list: the pieces between separators, trimmed, without empty ones.
pub open spec fn list_items(s: Seq<char>, sep: char) -> Seq<Seq<char>> {
    trimmed_items(split(s, sep))
}

/// The items of a list.
pub fn items_of(s: &[char], sep: char) -> (r: Vec<Vec<char>>)
    ensures
        views(r@) == list_items(s@, sep),
{
    let pieces = split_on(s, sep);
    let ghost v = views(pieces@);
    let mut r: Vec<Vec<char>> = Vec::new();
    let mut i: usize = 0;
    proof {
        assert(v.take(0) =~= Seq::<Seq<char>>::empty());
        assert(views(r@) =~= Seq::<Seq<char>>::empty());
    }
    while i < pieces.len()
        invariant
            i <= pieces@.len(),
            v == views(pieces@),
            views(r@) == trimmed_items(v.take(i as int)),
        decreases pieces@.len() - i,
    {
        let piece = trimmed(pieces[i].as_slice());
        let ghost before = r@;
        proof {
            assert(v.take(i as int + 1).drop_last() =~= v.take(i as int));
            assert(v.take(i as int + 1).last() == pieces@[i as int]@);
        }
        if piece.len() > 0 {
            let ghost p = piece@;
            r.push(piece);
            proof {
                assert(views(r@) =~= views(before).push(p));
            }
        }
        i = i + 1;
    }
    proof {
        assert(v.take(i as int) =~= v);
    }
    r
}

/// The UTF-8 encoding of a concatenation is the concatenation of the encodings.
pub proof fn lemma_utf8_concat(a: Seq<char>, b: Seq<char>)
    ensures
        vstd::utf8::encode_utf8(a + b) == vstd::utf8::encode_utf8(a) + vstd::utf8::encode_utf8(b),
    decreases a.len(),
{
    if a.len() == 0 {
        assert(a + b =~= b);
        assert(vstd::utf8::encode_utf8(a) =~= Seq::<u8>::empty());
        assert(vstd::utf8::encode_utf8(a) + vstd::utf8::encode_utf8(b)
            =~= vstd::utf8::encode_utf8(b));
    } else {
        assert((a + b).drop_first() =~= a.drop_first() + b);
        lemma_utf8_concat(a.drop_first(), b);
        assert((a + b)[0] == a[0]);
        assert(vstd::utf8::encode_utf8(a + b) =~= vstd::utf8::encode_utf8(a)
            + vstd::utf8::encode_utf8(b));
    }
}

/// A number that was written down is read back, unless it is too large.
pub proof fn law_numbers_are_read_back(n: nat, max: nat)
    ensures
        n <= max ==> parse_unsigned(dec(n), max) == Some(n),
        n > max ==> parse_unsigned(dec(n), max) is None,
        n <= max ==> parse_unsigned(seq!['+'] + dec(n), max) == Some(n),
        parse_unsigned(Seq::empty(), max) is None,
        parse_unsigned(seq!['-'] + dec(n), max) is None,
{
    lemma_dec(n);
    assert(is_digit(dec(n)[0]));
    let plus = seq!['+'] + dec(n);
    assert(plus.skip(1) =~= dec(n));
    let minus = seq!['-'] + dec(n);
    assert(!is_digit(minus[0]));
    assert(minus[0] == '-');
}

/// Trimming takes off white space at both ends, all of it and nothing else.
pub proof fn law_trim_takes_white_space_off(s: Seq<char>)
    ensures
        ({
            let t = trim(s);
            &&& t.len() > 0 ==> !is_space(t[0]) && !is_space(t.last())
            &&& exists|at: int|
                0 <= at && at + t.len() <= s.len() && #[trigger] s.subrange(at, at + t.len()) == t
                    && (forall|i: int| 0 <= i < at ==> is_space(#[trigger] s[i])) && (forall|i: int|
                    at + t.len() <= i < s.len() ==> is_space(#[trigger] s[i]))
        }),
{
    let a = trim_start(s);
    let t = trim(s);
    lemma_trim_start(s);
    lemma_trim_end(a);
    let at = s.len() - a.len();
    assert(s.subrange(at, at + t.len()) =~= t);
    assert forall|i: int| at + t.len() <= i < s.len() implies is_space(#[trigger] s[i]) by {
        assert(a[i - at] == s[i]);
    }
    if t.len() > 0 {
        assert(t[0] == a[0]);
    }
}

proof fn lemma_trim_start(s: Seq<char>)
    ensures
        trim_start(s).len() <= s.len(),
        trim_start(s) == s.skip(s.len() - trim_start(s).len()),
        trim_start(s).len() > 0 ==> !is_space(trim_start(s)[0]),
        forall|i: int| 0 <= i < s.len() - trim_start(s).len() ==> is_space(#[trigger] s[i]),
    decreases s.len(),
{
    let t = trim_start(s);
    if s.len() > 0 && is_space(s[0]) {
        let rest = s.skip(1);
        lemma_trim_start(rest);
        assert(t =~= s.skip(s.len() - t.len()));
        assert forall|i: int| 0 <= i < s.len() - t.len() implies is_space(#[trigger] s[i]) by {
            if i > 0 {
                assert(rest[i - 1] == s[i]);
            }
        }
    } else {
        assert(s.skip(0) =~= s);
    }
}

proof fn lemma_trim_end(s: Seq<char>)
    ensures
        trim_end(s).len() <= s.len(),
        trim_end(s) == s.take(trim_end(s).len() as int),
        trim_end(s).len() > 0 ==> !is_space(trim_end(s).last()),
        forall|i: int| trim_end(s).len() <= i < s.len() ==> is_space(#[trigger] s[i]),
    decreases s.len(),
{
    let t = trim_end(s);
    if s.len() > 0 && is_space(s.last()) {
        let d = s.drop_last();
        lemma_trim_end(d);
        assert(t =~= s.take(t.len() as int));
        assert forall|i: int| t.len() <= i < s.len() implies is_space(#[trigger] s[i]) by {
            if i < d.len() {
                assert(d[i] == s[i]);
            }
        }
    } else {
        assert(s.take(s.len() as int) =~= s);
    }
}

/// The words of a text have no white space in them and none is empty; white space between
/// two texts separates their words, and a text without white space is one word.
pub proof fn law_words(a: Seq<char>, c: char, b: Seq<char>)
    requires
        is_space(c),
    ensures
        words(a.push(c) + b) == words(a) + words(b),
        b.len() > 0 && (forall|i: int| 0 <= i < b.len() ==> !is_space(#[trigger] b[i])) ==> words(b)
            == seq![b],
        forall|k: int|
            0 <= k < words(b).len() ==> (#[trigger] words(b)[k]).len() > 0 && forall|i: int|
                0 <= i < words(b)[k].len() ==> !is_space(#[trigger] words(b)[k][i]),
    decreases b.len(),
{
    let left = a.push(c);
    let whole = left + b;
    assert(left.drop_last() =~= a);
    if b.len() == 0 {
        assert(whole =~= left);
        assert(words(left) =~= words(a) + words(b));
    } else {
        let d = b.drop_last();
        law_words(a, c, d);
        assert(whole.drop_last() =~= left + d);
        assert(whole.last() == b.last());
        let p = words(d);
        if is_space(b.last()) {
        } else if d.len() == 0 || is_space(d.last()) {
            if d.len() == 0 {
                assert((left + d).last() == c);
            } else {
                assert((left + d).last() == d.last());
            }
            assert(words(whole) =~= words(a) + words(b));
            if d.len() == 0 {
                assert(b =~= seq![b.last()]);
                assert(words(b) =~= seq![b]);
            }
        } else {
            lemma_last_word(d);
            assert((left + d).last() == d.last());
            let w = words(a) + p;
            assert(w[w.len() - 1] == p[p.len() - 1]);
            assert(words(whole) =~= words(a) + words(b));
        }
        assert forall|k: int| 0 <= k < words(b).len() implies (#[trigger] words(b)[k]).len() > 0
            && forall|i: int| 0 <= i < words(b)[k].len() ==> !is_space(#[trigger] words(b)[k][i]) by {
            if k < p.len() {
                assert(p[k].len() > 0);
            }
        }
        if forall|i: int| 0 <= i < b.len() ==> !is_space(#[trigger] b[i]) {
            assert(!is_space(b[b.len() - 1]));
            assert forall|i: int| 0 <= i < d.len() implies !is_space(#[trigger] d[i]) by {
                assert(d[i] == b[i]);
            }
            if d.len() > 0 {
                assert(!is_space(d[d.len() - 1]));
                assert(d.push(b.last()) =~= b);
                assert(words(b) =~= seq![b]);
            }
        }
    }
}

proof fn lemma_last_word(s: Seq<char>)
    requires
        s.len() > 0,
        !is_space(s.last()),
    ensures
        words(s).len() > 0,
    decreases s.len(),
{
    let d = s.drop_last();
    if d.len() > 0 && !is_space(d.last()) {
        lemma_last_word(d);
    }
}

/// The items of a list are what stands between its separators, without white space around
/// them; empty ones are left out.
pub proof fn law_list_items(parts: Seq<Seq<char>>, last: Seq<char>, sep: char)
    requires
        forall|i: int| 0 <= i < parts.len() ==> !(#[trigger] parts[i]).contains(sep),
        !last.contains(sep),
        parts.len() >= 1,
    ensures
        list_items(join(parts.push(last), seq![sep]), sep) == list_items(
            join(parts, seq![sep]),
            sep,
        ) + (if trim(last).len() > 0 {
            seq![trim(last)]
        } else {
            Seq::empty()
        }),
{
    let all = parts.push(last);
    assert forall|i: int| 0 <= i < all.len() implies !(#[trigger] all[i]).contains(sep) by {
        if i < parts.len() {
            assert(all[i] == parts[i]);
        }
    }
    lemma_split_join(all, sep);
    lemma_split_join(parts, sep);
    assert(all.drop_last() =~= parts);
    let a = trimmed_items(all);
    let b = trimmed_items(parts);
    assert(a =~= b + (if trim(last).len() > 0 {
        seq![trim(last)]
    } else {
        Seq::empty()
    }));
}

/// Texts are ordered by their first difference, and a beginning comes before the whole.
pub proof fn law_text_order(p: Seq<char>, a: Seq<char>, b: Seq<char>)
    requires
        a.len() > 0,
        b.len() > 0,
        a[0] < b[0],
    ensures
        text_lt(p + a, p + b),
        !text_lt(p + b, p + a),
        text_lt(p, p + a),
        !text_lt(p, p),
    decreases p.len(),
{
    if p.len() == 0 {
        assert(p + a =~= a);
        assert(p + b =~= b);
    } else {
        let q = p.skip(1);
        law_text_order(q, a, b);
        assert((p + a).skip(1) =~= q + a);
        assert((p + b).skip(1) =~= q + b);
    }
}

/// White space and control characters: the ones that any text may hold.
pub proof fn law_common_characters(c: char)
    ensures
        is_space(' ') && is_space('\t') && is_space('\n') && is_space('\r'),
        'a' <= c <= 'z' || 'A' <= c <= 'Z' || '0' <= c <= '9' ==> !is_space(c) && !is_control(c),
        c == '.' || c == '-' || c == '_' || c == ':' || c == '/' || c == ',' || c == '|'
            ==> !is_space(c) && !is_control(c),
        is_control('\0') && is_control('\n') && is_control('\t') && is_control('\r')
            && is_control('\u{7f}'),
        !is_control(' '),
        (c as u32) < 0x20 ==> is_control(c),
{
}

/// A text has a control character where one of its characters is one, wherever it stands;
/// joining texts adds none.
pub proof fn law_control_characters_are_found(a: Seq<char>, b: Seq<char>, c: char)
    ensures
        has_control(a + b) <==> has_control(a) || has_control(b),
        has_control(seq![c]) <==> is_control(c),
        !has_control(Seq::empty()),
{
    let s = a + b;
    if has_control(a) {
        let i = choose|i: int| 0 <= i < a.len() && is_control(#[trigger] a[i]);
        assert(s[i] == a[i]);
    }
    if has_control(b) {
        let i = choose|i: int| 0 <= i < b.len() && is_control(#[trigger] b[i]);
        assert(s[a.len() + i] == b[i]);
    }
    if has_control(s) {
        let i = choose|i: int| 0 <= i < s.len() && is_control(#[trigger] s[i]);
        if i < a.len() {
            assert(a[i] == s[i]);
        } else {
            assert(b[i - a.len()] == s[i]);
        }
    }
    if is_control(c) {
        assert(seq![c][0] == c);
    }
}

} // verus!
