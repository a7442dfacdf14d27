//! Text shown to the user or written to an export: offsets in words and the
//! CSV report of totals.
use vstd::prelude::*;

verus! {

/// The character of the decimal digit `d`.
pub open spec fn digit_char(d: nat) -> char {
    if d == 0 { '0' }
    else if d == 1 { '1' }
    else if d == 2 { '2' }
    else if d == 3 { '3' }
    else if d == 4 { '4' }
    else if d == 5 { '5' }
    else if d == 6 { '6' }
    else if d == 7 { '7' }
    else if d == 8 { '8' }
    else { '9' }
}

/// `n` written in decimal, without leading zeros.
pub open spec fn decimal(n: nat) -> Seq<char>
    decreases n,
{
    if n < 10 {
        seq![digit_char(n)]
    } else {
        decimal(n / 10).push(digit_char(n % 10))
    }
}

fn push_digit(s: &mut String, d: u64)
    requires
        d < 10,
    ensures
        final(s)@ == old(s)@.push(digit_char(d as nat)),
{
    proof {
        reveal_strlit("0");
        reveal_strlit("1");
        reveal_strlit("2");
        reveal_strlit("3");
        reveal_strlit("4");
        reveal_strlit("5");
        reveal_strlit("6");
        reveal_strlit("7");
        reveal_strlit("8");
        reveal_strlit("9");
    }
    let t = if d == 0 { "0" }
    else if d == 1 { "1" }
    else if d == 2 { "2" }
    else if d == 3 { "3" }
    else if d == 4 { "4" }
    else if d == 5 { "5" }
    else if d == 6 { "6" }
    else if d == 7 { "7" }
    else if d == 8 { "8" }
    else { "9" };
    s.append(t);
    assert(t@ =~= seq![digit_char(d as nat)]);
}

/// Appends `n` in decimal to `s`.
pub fn push_decimal(s: &mut String, n: u64)
    ensures
        final(s)@ == old(s)@ + decimal(n as nat),
    decreases n,
{
    if n >= 10 {
        push_decimal(s, n / 10);
    }
    push_digit(s, n % 10);
    assert(s@ =~= old(s)@ + decimal(n as nat));
}

/// The size of `offset`, whatever its sign.
pub open spec fn magnitude(offset: int) -> nat {
    if offset < 0 {
        (-offset) as nat
    } else {
        offset as nat
    }
}

/// Whole hours and the whole minutes left over, in words: `2h and 5m`,
/// `2h`, `5m`, or nothing when both are zero.
pub open spec fn span_text(hours: nat, minutes: nat) -> Seq<char> {
    if hours == 0 && minutes == 0 {
        Seq::empty()
    } else if hours == 0 {
        decimal(minutes).push('m')
    } else if minutes == 0 {
        decimal(hours).push('h')
    } else {
        decimal(hours) + seq!['h', ' ', 'a', 'n', 'd', ' '] + decimal(minutes).push('m')
    }
}

/// An offset from now in words: `now`, `in 1h and 30m`, `30m ago`. Seconds
/// below a whole minute are not shown.
pub open spec fn offset_text(offset: int) -> Seq<char> {
    let span = span_text(magnitude(offset) / 3600, (magnitude(offset) % 3600) / 60);
    if offset == 0 {
        seq!['n', 'o', 'w']
    } else if offset > 0 {
        seq!['i', 'n', ' '] + span
    } else {
        span + seq![' ', 'a', 'g', 'o']
    }
}

fn push_span(s: &mut String, hours: u64, minutes: u64)
    ensures
        final(s)@ == old(s)@ + span_text(hours as nat, minutes as nat),
{
    proof {
        reveal_strlit("m");
        reveal_strlit("h");
        reveal_strlit("h and ");
    }
    if hours == 0 && minutes == 0 {
    } else if hours == 0 {
        push_decimal(s, minutes);
        s.append("m");
    } else if minutes == 0 {
        push_decimal(s, hours);
        s.append("h");
    } else {
        push_decimal(s, hours);
        s.append("h and ");
        push_decimal(s, minutes);
        s.append("m");
    }
    assert(s@ =~= old(s)@ + span_text(hours as nat, minutes as nat));
}

/// An offset in seconds from now, in words.
pub fn offset_string(offset: i64) -> (r: String)
    ensures
        r@ == offset_text(offset as int),
{
    proof {
        reveal_strlit("now");
        reveal_strlit("in ");
        reveal_strlit(" ago");
    }
    let mut r = String::new();
    if offset == 0 {
        r.append("now");
        assert(r@ =~= offset_text(offset as int));
        return r;
    }
    let size: u64 = if offset < 0 {
        (-(offset as i128)) as u64
    } else {
        offset as u64
    };
    let hours = size / 3600;
    let minutes = (size % 3600) / 60;
    if offset > 0 {
        r.append("in ");
        push_span(&mut r, hours, minutes);
    } else {
        push_span(&mut r, hours, minutes);
        r.append(" ago");
    }
    assert(r@ =~= offset_text(offset as int));
    r
}

/// One line of the CSV report: the name, then the total as whole hours and
/// minutes (`Coding,1h40m`).
pub open spec fn csv_row(name: Seq<char>, seconds: nat) -> Seq<char> {
    name + seq![','] + decimal(seconds / 3600) + seq!['h'] + decimal((seconds % 3600) / 60) + seq!['m', '\n']
}

pub open spec fn csv_rows(rows: Seq<(Seq<char>, u64)>) -> Seq<char>
    decreases rows.len(),
{
    if rows.len() == 0 {
        Seq::empty()
    } else {
        csv_rows(rows.drop_last()) + csv_row(rows.last().0, rows.last().1 as nat)
    }
}

/// The CSV report of per-activity totals: a header line, then one line per
/// activity in the given order.
pub open spec fn csv_report(rows: Seq<(Seq<char>, u64)>) -> Seq<char> {
    seq!['A', 'c', 't', 'i', 'v', 'i', 't', 'y', ',', 'T', 'i', 'm', 'e', '\n'] + csv_rows(rows)
}

pub open spec fn row_views(v: Seq<(String, u64)>) -> Seq<(Seq<char>, u64)> {
    Seq::new(v.len(), |i: int| ((v[i].0)@, v[i].1))
}

/// The text of an export of `times` (name and total seconds of each
/// activity).
pub fn activities_csv(times: &Vec<(String, u64)>) -> (r: String)
    ensures
        r@ == csv_report(row_views(times@)),
{
    proof {
        reveal_strlit("Activity,Time\n");
    }
    let ghost rows = row_views(times@);
    let mut r = String::new();
    r.append("Activity,Time\n");
    let mut i: usize = 0;
    while i < times.len()
        invariant
            i <= times@.len(),
            rows == row_views(times@),
            r@ == csv_report(rows.take(i as int)),
        decreases times@.len() - i,
    {
        proof {
            reveal_strlit(",");
            reveal_strlit("h");
            reveal_strlit("m\n");
        }
        let ghost before = r@;
        let name = &times[i].0;
        let secs = times[i].1;
        r.append(name.as_str());
        assert(r@ =~= before + name@);
        r.append(",");
        assert(r@ =~= before + name@ + seq![',']);
        push_decimal(&mut r, secs / 3600);
        r.append("h");
        assert(r@ =~= before + name@ + seq![','] + decimal(secs as nat / 3600) + seq!['h']);
        push_decimal(&mut r, (secs % 3600) / 60);
        r.append("m\n");
        assert(r@ =~= before + name@ + seq![','] + decimal(secs as nat / 3600) + seq!['h'] + decimal((secs as nat % 3600) / 60) + seq!['m', '\n']);
        assert(rows[i as int].0 == name@);
        assert(rows[i as int].1 == secs);
        assert(rows.take(i + 1).drop_last() =~= rows.take(i as int));
        assert(rows.take(i + 1).last() == rows[i as int]);
        assert(r@ =~= before + csv_row(rows[i as int].0, rows[i as int].1 as nat));
        assert(r@ =~= csv_report(rows.take(i + 1)));
        i = i + 1;
    }
    assert(rows.take(i as int) =~= rows);
    r
}

} // verus!
