//! Processor usage from the kernel's process files.
use vstd::prelude::*;
use crate::text::{
    all_digits, chars_of, copy_chars, dec, is_digit, is_space, join, law_numbers_are_read_back,
    law_words, lemma_split_join, parse_number, parse_unsigned, split, split_on, split_words,
    starts_with, strip_text, sub_chars, text_starts_with, views, words,
};
use crate::doubles::{
    Double, EXACT_DOUBLES, FULL_DOUBLES, half_up, law_small_quotients_are_plain, lemma_small_double,
    nearest_double, rounded_quotient,
};
use vstd::arithmetic::power2::lemma2_to64;

verus! {

/// Running totals of processor time.
#[derive(Clone, Copy, Debug, PartialEq, Eq, Structural)]
pub struct CpuSnapshot {
    pub total: u64,
    pub process: u64,
    pub cores: u64,
}

/// The sum of numbers, where all of them are numbers and the sum fits.
pub open spec fn sum_of(fields: Seq<Seq<char>>) -> Option<nat>
    decreases fields.len(),
{
    if fields.len() == 0 {
        Some(0)
    } else {
        match (sum_of(fields.drop_last()), parse_unsigned(fields.last(), u64::MAX as nat)) {
            (Some(a), Some(b)) => if a + b <= u64::MAX {
                Some(a + b)
            } else {
                None
            },
            _ => None,
        }
    }
}

/// The total of a processor line: the numbers behind its name, at least four of them.
pub open spec fn line_total(line: Seq<char>) -> Option<nat> {
    let w = words(line);
    if w.len() < 5 {
        None
    } else {
        sum_of(w.skip(1))
    }
}

/// Reads the total of a processor line.
pub fn parse_cpu_total(line: &[char]) -> (r: Option<u64>)
    ensures
        match r {
            Some(v) => line_total(line@) == Some(v as nat),
            None => line_total(line@) is None,
        },
{
    let fields = split_words(line);
    let ghost w = views(fields@);
    if fields.len() < 5 {
        return None;
    }
    let ghost t = w.skip(1);
    let mut total: u64 = 0;
    let mut i: usize = 1;
    proof {
        assert(t.take(0) =~= Seq::<Seq<char>>::empty());
    }
    while i < fields.len()
        invariant
            1 <= i <= fields@.len(),
            w == views(fields@),
            t == w.skip(1),
            w == words(line@),
            fields@.len() >= 5,
            sum_of(t.take(i - 1)) == Some(total as nat),
        decreases fields@.len() - i,
    {
        proof {
            assert(t.take(i as int).drop_last() =~= t.take(i - 1));
            assert(t.take(i as int).last() == fields@[i as int]@);
        }
        let value = parse_number(fields[i].as_slice(), u64::MAX);
        let next: Option<u64> = match value {
            Some(v) => total.checked_add(v),
            None => None,
        };
        match next {
            Some(sum) => {
                total = sum;
            },
            None => {
                proof {
                    assert(sum_of(t.take(i as int)) is None);
                    lemma_sum_prefix(t, i as int);
                }
                return None;
            },
        }
        i = i + 1;
    }
    proof {
        assert(t.take(i - 1) =~= t);
    }
    Some(total)
}

proof fn lemma_sum_prefix(t: Seq<Seq<char>>, k: int)
    requires
        0 <= k <= t.len(),
        sum_of(t.take(k)) is None,
    ensures
        sum_of(t) is None,
    decreases t.len(),
{
    if k == t.len() {
        assert(t.take(k) =~= t);
    } else {
        assert(t.drop_last().take(k) =~= t.take(k));
        lemma_sum_prefix(t.drop_last(), k);
    }
}

/// One line of a text, given what stands between line feeds and whether a line feed
/// follows: a carriage return before a line feed belongs to the line end.
pub open spec fn line_content(piece: Seq<char>, terminated: bool) -> Seq<char> {
    if terminated && piece.len() > 0 && piece.last() == '\r' {
        piece.drop_last()
    } else {
        piece
    }
}

/// The lines of a text.
pub open spec fn lines_of(s: Seq<char>) -> Seq<Seq<char>> {
    let p = split(s, '\n');
    let n = if p.last().len() == 0 {
        p.len() - 1
    } else {
        p.len() as int
    };
    Seq::new(n as nat, |i: int| line_content(p[i], i < p.len() - 1))
}

/// The lines of a text.
pub fn split_lines(s: &[char]) -> (r: Vec<Vec<char>>)
    ensures
        views(r@) == lines_of(s@),
{
    let pieces = split_on(s, '\n');
    let ghost p = views(pieces@);
    proof {
        assert(p.last() == pieces@[pieces@.len() - 1]@);
    }
    let last: usize = pieces.len() - 1;
    let n: usize = if pieces[last].len() == 0 {
        last
    } else {
        pieces.len()
    };
    let mut r: Vec<Vec<char>> = Vec::new();
    let mut i: usize = 0;
    while i < n
        invariant
            i <= n <= pieces@.len(),
            last == pieces@.len() - 1,
            p == views(pieces@),
            r@.len() == i,
            forall|k: int|
                0 <= k < i ==> (#[trigger] r@[k])@ == line_content(p[k], k < p.len() - 1),
        decreases n - i,
    {
        let len: usize = pieces[i].len();
        let cut = i < last && len > 0 && pieces[i][len - 1] == '\r';
        let line = if cut {
            sub_chars(pieces[i].as_slice(), 0, len - 1)
        } else {
            copy_chars(pieces[i].as_slice())
        };
        proof {
            assert(p[i as int] == pieces@[i as int]@);
            if cut {
                assert(line@ =~= p[i as int].drop_last());
            }
        }
        r.push(line);
        i = i + 1;
    }
    proof {
        assert(views(r@) =~= lines_of(s@));
    }
    r
}

/// Whether a line describes one core: `cpu`, directly or after white space followed by
/// a number.
pub open spec fn is_core_line(line: Seq<char>) -> bool {
    starts_with(line, "cpu"@) && {
        let w = words(line.skip(3));
        w.len() > 0 && all_digits(w[0])
    }
}

fn core_line(line: &[char]) -> (r: bool)
    ensures
        r == is_core_line(line@),
{
    proof {
        reveal_strlit("cpu");
        assert("cpu"@.len() == 3);
    }
    match strip_text(line, "cpu") {
        None => false,
        Some(rest) => {
            let w = split_words(rest.as_slice());
            if w.len() == 0 {
                proof {
                    assert(views(w@).len() == 0);
                }
                return false;
            }
            proof {
                assert(views(w@)[0] == w@[0]@);
            }
            let mut i: usize = 0;
            while i < w[0].len()
                invariant
                    w@.len() > 0,
                    i <= w@[0]@.len(),
                    views(w@) == words(rest@),
                    views(w@)[0] == w@[0]@,
                    rest@ == line@.skip(3),
                    starts_with(line@, "cpu"@),
                    forall|k: int| 0 <= k < i ==> is_digit(#[trigger] w@[0]@[k]),
                decreases w@[0]@.len() - i,
            {
                let c = w[0][i];
                if !('0' <= c && c <= '9') {
                    proof {
                        assert(!is_digit(w@[0]@[i as int]));
                    }
                    return false;
                }
                i = i + 1;
            }
            true
        },
    }
}

/// How many of some lines describe a core.
pub open spec fn core_lines(lines: Seq<Seq<char>>) -> nat
    decreases lines.len(),
{
    if lines.len() == 0 {
        0
    } else {
        core_lines(lines.drop_last()) + (if is_core_line(lines.last()) {
            1nat
        } else {
            0nat
        })
    }
}

/// What the host's processor file tells: the total, and the number of cores, at least
/// one.
pub open spec fn host_cpu(stat: Seq<char>) -> Option<(nat, nat)> {
    let l = lines_of(stat);
    if l.len() == 0 || !starts_with(l[0], "cpu "@) {
        None
    } else {
        match line_total(l[0]) {
            Some(total) => {
                let n = core_lines(l.skip(1));
                Some(
                    (
                        total,
                        if n == 0 {
                            1
                        } else {
                            n
                        },
                    ),
                )
            },
            None => None,
        }
    }
}

/// Reads the host's processor file: total time and number of cores.
pub fn parse_host_cpu(stat: &str) -> (r: Option<(u64, u64)>)
    ensures
        match r {
            Some((total, cores)) => host_cpu(stat@) == Some((total as nat, cores as nat)),
            None => host_cpu(stat@) is None,
        },
{
    let chars = chars_of(stat);
    let lines = split_lines(chars.as_slice());
    let ghost l = views(lines@);
    if lines.len() == 0 {
        return None;
    }
    proof {
        assert(l[0] == lines@[0]@);
    }
    let head = chars_of("cpu ");
    if !text_starts_with(lines[0].as_slice(), head.as_slice()) {
        return None;
    }
    let total = match parse_cpu_total(lines[0].as_slice()) {
        Some(total) => total,
        None => {
            return None;
        },
    };
    let ghost t = l.skip(1);
    let mut cores: u64 = 0;
    let mut i: usize = 1;
    proof {
        assert(t.take(0) =~= Seq::<Seq<char>>::empty());
    }
    while i < lines.len()
        invariant
            1 <= i <= lines@.len(),
            l == views(lines@),
            t == l.skip(1),
            cores == core_lines(t.take(i - 1)),
            cores < i,
        decreases lines@.len() - i,
    {
        proof {
            assert(t.take(i as int).drop_last() =~= t.take(i - 1));
            assert(t.take(i as int).last() == lines@[i as int]@);
        }
        if core_line(lines[i].as_slice()) {
            cores = cores + 1;
        }
        i = i + 1;
    }
    proof {
        assert(t.take(i - 1) =~= t);
    }
    if cores == 0 {
        cores = 1;
    }
    Some((total, cores))
}

/// The position behind the last closing bracket.
pub open spec fn after_bracket(s: Seq<char>) -> Option<int>
    decreases s.len(),
{
    if s.len() == 0 {
        None
    } else if s.last() == ')' {
        Some(s.len() as int)
    } else {
        after_bracket(s.drop_last())
    }
}

/// What a process file tells: user and system time, fields 12 and 13 behind the name of
/// the process, which stands in brackets and may hold anything.
pub open spec fn process_cpu(stat: Seq<char>) -> Option<nat> {
    match after_bracket(stat) {
        None => None,
        Some(at) => {
            let w = words(stat.skip(at));
            if w.len() < 13 {
                None
            } else {
                match (
                    parse_unsigned(w[11], u64::MAX as nat),
                    parse_unsigned(w[12], u64::MAX as nat),
                ) {
                    (Some(user), Some(system)) => Some(
                        if user + system > u64::MAX {
                            u64::MAX as nat
                        } else {
                            user + system
                        },
                    ),
                    _ => None,
                }
            }
        },
    }
}

/// Reads the processor time of a process.
pub fn parse_process_cpu(stat: &str) -> (r: Option<u64>)
    ensures
        match r {
            Some(v) => process_cpu(stat@) == Some(v as nat),
            None => process_cpu(stat@) is None,
        },
{
    let chars = chars_of(stat);
    let mut at: usize = chars.len();
    proof {
        assert(chars@.take(at as int) =~= chars@);
    }
    while at > 0 && chars[at - 1] != ')'
        invariant
            at <= chars@.len(),
            after_bracket(chars@) == after_bracket(chars@.take(at as int)),
        decreases at,
    {
        proof {
            assert(chars@.take(at as int).last() == chars@[at - 1]);
            assert(chars@.take(at as int).drop_last() =~= chars@.take(at - 1));
        }
        at = at - 1;
    }
    if at == 0 {
        return None;
    }
    proof {
        assert(chars@.take(at as int).last() == chars@[at - 1]);
    }
    let rest = sub_chars(chars.as_slice(), at, chars.len());
    proof {
        assert(rest@ =~= chars@.skip(at as int));
    }
    let fields = split_words(rest.as_slice());
    let ghost w = views(fields@);
    if fields.len() < 13 {
        return None;
    }
    proof {
        assert(w[11] == fields@[11]@ && w[12] == fields@[12]@);
    }
    match (
        parse_number(fields[11].as_slice(), u64::MAX),
        parse_number(fields[12].as_slice(), u64::MAX),
    ) {
        (Some(user), Some(system)) => Some(user.saturating_add(system)),
        _ => None,
    }
}

/// Share of the process in the processor time between two snapshots, in percent of one
/// core, at most a hundred for each core; nothing where no time passed. Each step of the
/// computation gives the nearest double.
pub open spec fn percentage(previous: CpuSnapshot, current: CpuSnapshot) -> Option<nat> {
    if current.total <= previous.total {
        None
    } else {
        let total = (current.total - previous.total) as nat;
        let share = rounded_quotient(
            nearest_double(
                nearest_double(
                    nearest_double(time_used(previous, current)) * nearest_double(
                        current.cores as nat,
                    ),
                ) * 100,
            ),
            nearest_double(total),
        );
        let most: nat = if current.cores * 100 > u64::MAX {
            u64::MAX as nat
        } else {
            (current.cores * 100) as nat
        };
        Some(
            if share < most {
                share
            } else {
                most
            },
        )
    }
}

/// The processor time of the process between two snapshots.
pub open spec fn time_used(previous: CpuSnapshot, current: CpuSnapshot) -> nat {
    if current.process >= previous.process {
        (current.process - previous.process) as nat
    } else {
        0
    }
}

/// Share of the process in the processor time between two snapshots.
pub fn cpu_percentage(previous: CpuSnapshot, current: CpuSnapshot) -> (r: Option<u64>)
    ensures
        match r {
            Some(v) => percentage(previous, current) == Some(v as nat),
            None => percentage(previous, current) is None,
        },
{
    if current.total <= previous.total {
        return None;
    }
    let total: u64 = current.total - previous.total;
    let used: u64 = current.process.saturating_sub(previous.process);
    let most: u64 = match current.cores.checked_mul(100) {
        Some(n) => n,
        None => u64::MAX,
    };
    let hundred = Double { digits: 100, exponent: 0 };
    proof {
        lemma2_to64();
        assert(hundred.value() == 100);
    }
    let time = Double::from_whole(used as u128);
    let cores = Double::from_whole(current.cores as u128);
    let share = time.times(cores).times(hundred);
    Some(share.ratio(Double::from_whole(total as u128), most))
}

/// As long as the numbers are not huge, the share is the whole number of percents nearest
/// to what the process used of all the time that passed.
pub proof fn law_percentage_is_the_nearest(previous: CpuSnapshot, current: CpuSnapshot)
    requires
        previous.total < current.total < EXACT_DOUBLES,
        current.cores < EXACT_DOUBLES,
        time_used(previous, current) < EXACT_DOUBLES,
        time_used(previous, current) * current.cores * 100 < FULL_DOUBLES,
    ensures
        ({
            let share = half_up(
                time_used(previous, current) * current.cores as nat * 100,
                (current.total - previous.total) as nat,
            );
            percentage(previous, current) == Some(
                if share < current.cores * 100 {
                    share
                } else {
                    current.cores as nat * 100
                },
            )
        }),
{
    let used = time_used(previous, current);
    lemma_small_double(used);
    lemma_small_double(current.cores as nat);
    lemma_small_double(used * current.cores as nat);
    lemma_small_double(used * current.cores as nat * 100);
    lemma_small_double((current.total - previous.total) as nat);
    law_small_quotients_are_plain(
        used * current.cores as nat * 100,
        (current.total - previous.total) as nat,
    );
}

/// The times on a line add up, as far as they fit.
pub proof fn law_times_add_up(fields: Seq<Seq<char>>, a: nat, v: nat)
    requires
        sum_of(fields) == Some(a),
        v <= u64::MAX,
    ensures
        a + v <= u64::MAX ==> sum_of(fields.push(dec(v))) == Some(a + v),
        a + v > u64::MAX ==> sum_of(fields.push(dec(v))) is None,
        sum_of(Seq::empty()) == Some(0nat),
{
    law_numbers_are_read_back(v, u64::MAX as nat);
    assert(fields.push(dec(v)).drop_last() =~= fields);
}

/// A line of times has a name and at least four times; the name is not counted.
pub proof fn law_line_total_skips_the_name(line: Seq<char>, times: Seq<Seq<char>>, name: Seq<char>)
    requires
        words(line) == seq![name] + times,
    ensures
        times.len() < 4 ==> line_total(line) is None,
        times.len() >= 4 ==> line_total(line) == sum_of(times),
{
    assert((seq![name] + times).skip(1) =~= times);
}

/// The time of a process is its user and system time, the twelfth and thirteenth value
/// behind the last closing bracket, whatever brackets its name holds; too much time counts
/// as the largest number.
pub proof fn law_process_time_is_user_and_system(
    name: Seq<char>,
    rest: Seq<char>,
    user: u64,
    system: u64,
)
    requires
        !rest.contains(')'),
        words(rest).len() >= 13,
        words(rest)[11] == dec(user as nat),
        words(rest)[12] == dec(system as nat),
    ensures
        process_cpu(name + seq![')'] + rest) == Some(
            if user + system > u64::MAX {
                u64::MAX as nat
            } else {
                (user + system) as nat
            },
        ),
{
    let stat = name + seq![')'] + rest;
    lemma_after_bracket(name, rest);
    assert(stat.skip(name.len() as int + 1) =~= rest);
    law_numbers_are_read_back(user as nat, u64::MAX as nat);
    law_numbers_are_read_back(system as nat, u64::MAX as nat);
}

proof fn lemma_after_bracket(name: Seq<char>, rest: Seq<char>)
    requires
        !rest.contains(')'),
    ensures
        after_bracket(name + seq![')'] + rest) == Some(name.len() as int + 1),
    decreases rest.len(),
{
    let stat = name + seq![')'] + rest;
    if rest.len() > 0 {
        let d = rest.drop_last();
        assert(stat.drop_last() =~= name + seq![')'] + d);
        assert(stat.last() == rest[rest.len() - 1]);
        assert(rest.contains(rest[rest.len() - 1]));
        assert forall|i: int| 0 <= i < d.len() implies d[i] != ')' by {
            assert(rest.contains(rest[i]));
        }
        lemma_after_bracket(name, d);
    }
}

/// A statistic without a bracket, or with too few values, gives no time.
pub proof fn law_incomplete_statistics_give_no_time(stat: Seq<char>, rest: Seq<char>)
    requires
        !rest.contains(')'),
        words(rest).len() < 13,
    ensures
        process_cpu(stat + seq![')'] + rest) is None,
        !stat.contains(')') ==> process_cpu(stat) is None,
{
    lemma_after_bracket(stat, rest);
    assert((stat + seq![')'] + rest).skip(stat.len() as int + 1) =~= rest);
    if !stat.contains(')') {
        lemma_no_bracket(stat);
    }
}

proof fn lemma_no_bracket(s: Seq<char>)
    requires
        !s.contains(')'),
    ensures
        after_bracket(s) is None,
    decreases s.len(),
{
    if s.len() > 0 {
        assert(s.contains(s[s.len() - 1]));
        let d = s.drop_last();
        assert forall|i: int| 0 <= i < d.len() implies d[i] != ')' by {
            assert(s.contains(s[i]));
        }
        lemma_no_bracket(d);
    }
}

/// Lines that were written one under the other are read back, with or without a newline at
/// the very end.
pub proof fn law_lines_are_read_back(lines: Seq<Seq<char>>)
    requires
        lines.len() >= 1,
        forall|i: int|
            0 <= i < lines.len() ==> !(#[trigger] lines[i]).contains('\n') && lines[i].len() > 0
                && lines[i].last() != '\r',
    ensures
        lines_of(join(lines, seq!['\n'])) == lines,
        lines_of(join(lines, seq!['\n']).push('\n')) == lines,
{
    let s = join(lines, seq!['\n']);
    lemma_split_join(lines, '\n');
    assert(lines.last() == lines[lines.len() - 1]);
    assert(lines_of(s) =~= lines);
    let t = s.push('\n');
    assert(t.drop_last() =~= s);
    let p = split(t, '\n');
    assert(p == lines.push(Seq::empty()));
    assert(p.last().len() == 0);
    assert(lines_of(t) =~= lines);
}

/// A carriage return before a newline is no part of the line.
pub proof fn law_carriage_returns_end_lines(line: Seq<char>)
    ensures
        line_content(line.push('\r'), true) == line,
        line_content(line.push('\r'), false) == line.push('\r'),
        line.len() == 0 || line.last() != '\r' ==> line_content(line, true) == line,
{
    assert(line.push('\r').drop_last() =~= line);
}

/// The cores are the lines that name one, at least one; the total is that of the first
/// line, which must be the line of all cores.
pub proof fn law_host_time_and_cores(stat: Seq<char>)
    ensures
        host_cpu(stat) matches Some((total, cores)) ==> {
            let l = lines_of(stat);
            &&& l.len() > 0 && starts_with(l[0], "cpu "@)
            &&& line_total(l[0]) == Some(total)
            &&& cores >= 1
            &&& cores == core_lines(l.skip(1)) || (cores == 1 && core_lines(l.skip(1)) == 0)
        },
        lines_of(stat).len() > 0 && starts_with(lines_of(stat)[0], "cpu "@) && line_total(
            lines_of(stat)[0],
        ) is Some ==> host_cpu(stat) is Some,
{
}

/// Each line that names a core counts once.
pub proof fn law_core_lines_count(lines: Seq<Seq<char>>, line: Seq<char>)
    ensures
        is_core_line(line) ==> core_lines(lines.push(line)) == core_lines(lines) + 1,
        !is_core_line(line) ==> core_lines(lines.push(line)) == core_lines(lines),
        core_lines(Seq::empty()) == 0,
        is_core_line(line) ==> starts_with(line, "cpu"@) && words(line.skip(3)).len() > 0,
{
    assert(lines.push(line).drop_last() =~= lines);
}

/// A line describes a core where `cpu` is followed by a number, whatever stands behind it.
pub proof fn law_core_lines_have_numbers(number: Seq<char>, c: char, rest: Seq<char>)
    requires
        number.len() > 0,
        forall|i: int| 0 <= i < number.len() ==> !is_space(#[trigger] number[i]),
        is_space(c),
    ensures
        is_core_line("cpu"@ + number.push(c) + rest) <==> all_digits(number),
        !is_core_line("cpu"@),
        !starts_with(rest, "cpu"@) ==> !is_core_line(rest),
{
    reveal_strlit("cpu");
    let line = "cpu"@ + number.push(c) + rest;
    assert(line.take(3) =~= "cpu"@);
    assert(line.skip(3) =~= number.push(c) + rest);
    law_words(number, c, rest);
    law_words(Seq::empty(), c, number);
    assert(words(number) == seq![number]);
    assert(words(line.skip(3))[0] == number);
    assert("cpu"@.skip(3) =~= Seq::<char>::empty());
    law_words(Seq::empty(), c, Seq::empty());
}

/// No share exceeds a hundred percent of each core, and without time that passed there is
/// none.
pub proof fn law_percentage_is_bounded(previous: CpuSnapshot, current: CpuSnapshot)
    ensures
        percentage(previous, current) is Some <==> previous.total < current.total,
        (percentage(previous, current) matches Some(v) ==> v <= current.cores * 100),
{
}

} // verus!
