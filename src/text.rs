//! Text building blocks of the report: runs of spaces, decimal numbers,
//! durations in seconds, and the lines of a message.
use vstd::prelude::*;
use vstd::string::*;

verus! {

pub open spec fn spaces(n: nat) -> Seq<char> {
    Seq::new(n, |_i: int| ' ')
}

pub open spec fn digit(d: nat) -> char {
    "0123456789"@[d as int]
}

/// Decimal notation of `n`, without leading zeros.
pub open spec fn decimal(n: nat) -> Seq<char>
    decreases n,
{
    if n < 10 {
        seq![digit(n)]
    } else {
        decimal(n / 10).push(digit(n % 10))
    }
}

/// Hundredths of a second in `nanos` nanoseconds, rounded half up.
pub open spec fn centis(nanos: nat) -> nat {
    nanos / 10_000_000 + if nanos % 10_000_000 >= 5_000_000 { 1nat } else { 0nat }
}

/// `nanos` as seconds with exactly two decimals, followed by `s`.
pub open spec fn seconds_text(nanos: nat) -> Seq<char> {
    let c = centis(nanos);
    decimal(c / 100) + seq!['.', digit((c % 100) / 10), digit(c % 10), 's']
}

/// The pieces of `s` between newline characters, in order; a text with no
/// newline is one line, and an empty text is one empty line.
pub open spec fn lines_of(s: Seq<char>) -> Seq<Seq<char>>
    decreases s.len(),
{
    if s.len() == 0 {
        seq![seq![]]
    } else {
        let init = lines_of(s.drop_last());
        if s.last() == '\n' {
            init.push(seq![])
        } else {
            init.update(init.len() - 1, init.last().push(s.last()))
        }
    }
}

pub proof fn lemma_lines_of_nonempty(s: Seq<char>)
    ensures
        lines_of(s).len() >= 1,
    decreases s.len(),
{
    if s.len() > 0 {
        lemma_lines_of_nonempty(s.drop_last());
    }
}

pub fn spaces_string(n: usize) -> (r: String)
    ensures
        r@ == spaces(n as nat),
{
    let mut r = String::new();
    let mut i: usize = 0;
    while i < n
        invariant
            i <= n,
            r@ == spaces(i as nat),
        decreases n - i,
    {
        proof {
            reveal_strlit(" ");
        }
        r.append(" ");
        i += 1;
        assert(r@ =~= spaces(i as nat));
    }
    r
}

fn push_digit(out: &mut String, d: u128)
    requires
        d < 10,
    ensures
        final(out)@ == old(out)@.push(digit(d as nat)),
{
    let digits = "0123456789";
    proof {
        reveal_strlit("0123456789");
    }
    let one = digits.substring_char(d as usize, d as usize + 1);
    out.append(one);
    assert(one@ =~= seq![digit(d as nat)]);
}

pub fn push_decimal(out: &mut String, n: u128)
    ensures
        final(out)@ == old(out)@ + decimal(n as nat),
    decreases n,
{
    if n >= 10 {
        push_decimal(out, n / 10);
    }
    push_digit(out, n % 10);
    assert(final(out)@ =~= old(out)@ + decimal(n as nat));
}

/// Appends the duration `nanos`, in seconds with two decimals and a trailing `s`.
pub fn push_seconds(out: &mut String, nanos: u128)
    ensures
        final(out)@ == old(out)@ + seconds_text(nanos as nat),
{
    let mut c: u128 = nanos / 10_000_000;
    if nanos % 10_000_000 >= 5_000_000 {
        c = c + 1;
    }
    push_decimal(out, c / 100);
    proof {
        reveal_strlit(".");
        reveal_strlit("s");
    }
    out.append(".");
    push_digit(out, (c % 100) / 10);
    push_digit(out, c % 10);
    out.append("s");
    assert(final(out)@ =~= old(out)@ + seconds_text(nanos as nat));
}

/// Splits `text` at each newline character.
pub fn split_lines(text: &str) -> (r: Vec<String>)
    ensures
        r@.map_values(|l: String| l@) == lines_of(text@),
{
    let n = text.unicode_len();
    let mut lines: Vec<String> = Vec::new();
    let mut start: usize = 0;
    let mut i: usize = 0;
    assert(text@.take(0) =~= Seq::<char>::empty());
    assert(lines@.map_values(|l: String| l@).push(text@.subrange(0, 0)) =~= seq![seq![]]);
    while i < n
        invariant
            start <= i <= n,
            n == text@.len(),
            lines@.map_values(|l: String| l@).push(text@.subrange(start as int, i as int))
                == lines_of(text@.take(i as int)),
        decreases n - i,
    {
        let c = text.get_char(i);
        let ghost before = lines@.map_values(|l: String| l@);
        let ghost from = start;
        proof {
            assert(text@.take(i + 1).drop_last() =~= text@.take(i as int));
            lemma_lines_of_nonempty(text@.take(i as int));
            assert(text@.take(i + 1).last() == c);
        }
        if c == '\n' {
            let piece = String::from_str(text.substring_char(start, i));
            lines.push(piece);
            start = i + 1;
            assert(lines@.map_values(|l: String| l@) =~= before.push(
                text@.subrange(from as int, i as int),
            ));
            assert(lines_of(text@.take(i + 1)) == lines_of(text@.take(i as int)).push(seq![]));
            assert(text@.subrange(start as int, i + 1) =~= Seq::<char>::empty());
        } else {
            assert(text@.subrange(start as int, i + 1) =~= text@.subrange(
                start as int,
                i as int,
            ).push(c));
            assert(lines_of(text@.take(i + 1)) =~= before.push(
                text@.subrange(start as int, i + 1),
            ));
        }
        i += 1;
        assert(lines@.map_values(|l: String| l@).push(text@.subrange(start as int, i as int))
            =~= lines_of(text@.take(i as int)));
    }
    lines.push(String::from_str(text.substring_char(start, n)));
    assert(text@.take(n as int) =~= text@);
    assert(lines@.map_values(|l: String| l@) =~= lines_of(text@));
    lines
}

} // verus!
