use vstd::prelude::*;

verus! {

/// The byte of the digit `0`.
pub const DIGIT_ZERO: u8 = 48;

/// The byte of the digit `9`.
pub const DIGIT_NINE: u8 = 57;

/// The byte of `-`.
pub const MINUS_SIGN: u8 = 45;

/// The byte of `+`.
pub const PLUS_SIGN: u8 = 43;

/// The byte that ends a line.
pub const LINE_FEED: u8 = 10;

/// The byte that may stand before a line feed.
pub const CARRIAGE_RETURN: u8 = 13;

/// Whether `b` is an ASCII decimal digit.
pub open spec fn is_digit(b: u8) -> bool {
    DIGIT_ZERO <= b <= DIGIT_NINE
}

/// Whether every byte of `d` is a decimal digit.
pub open spec fn all_digits(d: Seq<u8>) -> bool {
    forall|i: int| 0 <= i < d.len() ==> is_digit(#[trigger] d[i])
}

/// The number that the digits `d` spell in base ten (0 for no digits).
pub open spec fn digits_value(d: Seq<u8>) -> int
    decreases d.len(),
{
    if d.len() == 0 {
        0
    } else {
        digits_value(d.drop_last()) * 10 + (d.last() - DIGIT_ZERO)
    }
}

/// The integer that `s` spells: an optional `+` or `-` followed by one or
/// more decimal digits, and nothing else.
pub open spec fn decimal_value(s: Seq<u8>) -> Option<int> {
    if s.len() > 1 && s[0] == MINUS_SIGN && all_digits(s.drop_first()) {
        Some(-digits_value(s.drop_first()))
    } else if s.len() > 1 && s[0] == PLUS_SIGN && all_digits(s.drop_first()) {
        Some(digits_value(s.drop_first()))
    } else if s.len() > 0 && all_digits(s) {
        Some(digits_value(s))
    } else {
        None
    }
}

/// The bytes of `b` before its first line feed (all of `b` if it has none).
pub open spec fn first_line(b: Seq<u8>) -> Seq<u8>
    decreases b.len(),
{
    if b.len() == 0 || b[0] == LINE_FEED {
        Seq::empty()
    } else {
        seq![b[0]] + first_line(b.drop_first())
    }
}

/// The first line of `b` without its line ending: a carriage return before
/// the line feed belongs to the ending.
pub open spec fn line_text(b: Seq<u8>) -> Seq<u8> {
    let line = first_line(b);
    if line.len() < b.len() && line.len() > 0 && line.last() == CARRIAGE_RETURN {
        line.drop_last()
    } else {
        line
    }
}

/// The best score that the stored bytes `b` hold: the integer on the first
/// line if it is one and fits an `i32`, else 0.
pub open spec fn stored_highest_score(b: Seq<u8>) -> int {
    match decimal_value(line_text(b)) {
        Some(v) => if i32::MIN <= v <= i32::MAX {
            v
        } else {
            0
        },
        None => 0,
    }
}

/// The decimal digits of `n`, most significant first, with no leading zero.
pub open spec fn digits_text(n: nat) -> Seq<u8>
    decreases n,
{
    if n < 10 {
        seq![(DIGIT_ZERO + n) as u8]
    } else {
        digits_text(n / 10).push((DIGIT_ZERO + n % 10) as u8)
    }
}

/// `n` in decimal, with a leading `-` when it is negative.
pub open spec fn decimal_text(n: int) -> Seq<u8> {
    if n < 0 {
        seq![MINUS_SIGN] + digits_text((-n) as nat)
    } else {
        digits_text(n as nat)
    }
}

proof fn lemma_digits_value_nonneg(d: Seq<u8>)
    requires
        all_digits(d),
    ensures
        digits_value(d) >= 0,
    decreases d.len(),
{
    if d.len() > 0 {
        assert(is_digit(d[d.len() - 1]));
        lemma_digits_value_nonneg(d.drop_last());
    }
}

proof fn lemma_first_line_until(b: Seq<u8>, end: int)
    requires
        0 <= end <= b.len(),
        forall|k: int| 0 <= k < end ==> b[k] != LINE_FEED,
        end == b.len() || b[end] == LINE_FEED,
    ensures
        first_line(b) == b.subrange(0, end),
    decreases end,
{
    if end == 0 {
        assert(b.subrange(0, 0) =~= Seq::<u8>::empty());
    } else {
        let rest = b.drop_first();
        assert forall|k: int| 0 <= k < end - 1 implies rest[k] != LINE_FEED by {
            assert(rest[k] == b[k + 1]);
        }
        lemma_first_line_until(rest, end - 1);
        assert(seq![b[0]] + rest.subrange(0, end - 1) =~= b.subrange(0, end));
    }
}

proof fn lemma_digits_text(n: nat)
    ensures
        digits_text(n).len() > 0,
        all_digits(digits_text(n)),
        digits_value(digits_text(n)) == n,
    decreases n,
{
    let t = digits_text(n);
    assert(digits_value(t) == digits_value(t.drop_last()) * 10 + (t.last() - DIGIT_ZERO));
    if n < 10 {
        assert(t.drop_last() =~= Seq::<u8>::empty());
    } else {
        lemma_digits_text(n / 10);
        assert(t.drop_last() =~= digits_text(n / 10));
        assert(t.last() - DIGIT_ZERO == n % 10);
        assert((n / 10) * 10 + n % 10 == n) by (nonlinear_arith);
        assert forall|i: int| 0 <= i < t.len() implies is_digit(#[trigger] t[i]) by {
            if i < t.len() - 1 {
                assert(t[i] == digits_text(n / 10)[i]);
            }
        }
    }
}

/// What is written is what is read back: the decimal text of any `i32`
/// holds that same number as the best score.
pub proof fn lemma_highest_score_round_trip(score: i32)
    ensures
        stored_highest_score(decimal_text(score as int)) == score,
{
    let m: nat = if score < 0 {
        (-score) as nat
    } else {
        score as nat
    };
    lemma_digits_text(m);
    let text = decimal_text(score as int);
    assert forall|k: int| 0 <= k < text.len() implies text[k] != LINE_FEED by {
        if score < 0 && k > 0 {
            assert(text[k] == digits_text(m)[k - 1]);
        }
        if score >= 0 {
            assert(is_digit(digits_text(m)[k]));
        }
    }
    lemma_first_line_until(text, text.len() as int);
    assert(text.subrange(0, text.len() as int) =~= text);
    if score < 0 {
        assert(text.drop_first() =~= digits_text(m));
    } else {
        assert(is_digit(text[0]));
    }
}

/// Appends the decimal digits of `n` to `out`.
fn push_digits(n: u64, out: &mut Vec<u8>)
    ensures
        final(out)@ == old(out)@ + digits_text(n as nat),
    decreases n,
{
    if n >= 10 {
        push_digits(n / 10, out);
    }
    out.push(DIGIT_ZERO + (n % 10) as u8);
    assert(final(out)@ =~= old(out)@ + digits_text(n as nat));
}

/// The bytes that store `score` as the best score: its decimal text.
pub fn highest_score_text(score: i32) -> (text: Vec<u8>)
    ensures
        text@ == decimal_text(score as int),
{
    let mut text: Vec<u8> = Vec::new();
    if score < 0 {
        text.push(MINUS_SIGN);
        push_digits((-(score as i64)) as u64, &mut text);
    } else {
        push_digits(score as u64, &mut text);
    }
    proof {
        assert(text@ =~= decimal_text(score as int));
    }
    text
}

/// Reads the best score from stored bytes: the integer on the first line, or
/// 0 when there is none that fits an `i32`.
pub fn parse_highest_score(contents: &[u8]) -> (score: i32)
    ensures
        score == stored_highest_score(contents@),
{
    let ghost b = contents@;
    let len = contents.len();
    let mut end: usize = 0;
    while end < len && contents[end] != LINE_FEED
        invariant
            len == b.len(),
            b == contents@,
            end <= len,
            forall|k: int| 0 <= k < end ==> b[k] != LINE_FEED,
        decreases len - end,
    {
        end = end + 1;
    }
    proof {
        lemma_first_line_until(b, end as int);
    }
    if end < len && end > 0 && contents[end - 1] == CARRIAGE_RETURN {
        end = end - 1;
    }
    let ghost line = b.subrange(0, end as int);
    assert(line == line_text(b));
    if end == 0 {
        return 0;
    }
    let negative = contents[0] == MINUS_SIGN;
    let start: usize = if negative || contents[0] == PLUS_SIGN {
        1
    } else {
        0
    };
    if start == end {
        return 0;
    }
    let ghost d = line.subrange(start as int, end as int);
    // One above the magnitude of `i32::MIN`: every larger value is out of
    // range with either sign, so the digits beyond it need not be added up.
    let cap: i64 = 2_147_483_649;
    let mut value: i64 = 0;
    let mut i: usize = start;
    while i < end
        invariant
            start <= i <= end <= len,
            len == b.len(),
            b == contents@,
            line == b.subrange(0, end as int),
            line == line_text(b),
            d == line.subrange(start as int, end as int),
            cap == 2_147_483_649,
            0 <= start < end,
            line[0] == b[0],
            negative == (b[0] == MINUS_SIGN),
            start == 1 <==> (b[0] == MINUS_SIGN || b[0] == PLUS_SIGN),
            start <= 1,
            all_digits(line.subrange(start as int, i as int)),
            value == if digits_value(line.subrange(start as int, i as int)) < cap {
                digits_value(line.subrange(start as int, i as int))
            } else {
                cap as int
            },
        decreases end - i,
    {
        let c = contents[i];
        let ghost done = line.subrange(start as int, i as int);
        if c < DIGIT_ZERO || c > DIGIT_NINE {
            proof {
                assert(!all_digits(d)) by {
                    assert(d[i - start] == c);
                }
                assert(line.drop_first() =~= line.subrange(1, end as int));
                if start == 0 {
                    assert(d =~= line);
                    assert(!(line.len() > 1 && line[0] == MINUS_SIGN));
                    assert(!(line.len() > 1 && line[0] == PLUS_SIGN));
                    assert(!all_digits(line)) by {
                        assert(line[i as int] == c);
                    }
                } else {
                    assert(d =~= line.drop_first());
                    assert(!all_digits(line)) by {
                        assert(!is_digit(line[0]));
                    }
                }
            }
            return 0;
        }
        proof {
            let next = line.subrange(start as int, i + 1);
            assert(next.drop_last() =~= done);
            assert(next.last() == c);
            assert forall|k: int| 0 <= k < next.len() implies is_digit(#[trigger] next[k]) by {
                if k < done.len() {
                    assert(next[k] == done[k]);
                }
            }
            lemma_digits_value_nonneg(done);
        }
        if value < cap {
            value = value * 10 + (c - DIGIT_ZERO) as i64;
            if value > cap {
                value = cap;
            }
        }
        i = i + 1;
    }
    proof {
        lemma_digits_value_nonneg(d);
        assert(line.drop_first() =~= line.subrange(1, end as int));
        if start == 0 {
            assert(d =~= line);
            if line.len() > 1 {
                assert(is_digit(line[0]));
            }
        } else {
            assert(d =~= line.drop_first());
        }
    }
    if negative {
        if value <= 2_147_483_648 {
            return (-value) as i32;
        }
    } else if value <= 2_147_483_647 {
        return value as i32;
    }
    0
}

} // verus!
