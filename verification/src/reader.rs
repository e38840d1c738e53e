use vstd::prelude::*;
use crate::position_factory::digit_of_spec;

verus! {

/// Index of the first space at or after `i`.
pub open spec fn first_space_from(s: Seq<char>, i: int) -> Option<int>
    recommends
        0 <= i <= s.len(),
    decreases s.len() - i,
{
    if i < 0 || i >= s.len() {
        None
    } else if s[i] == ' ' {
        Some(i)
    } else {
        first_space_from(s, i + 1)
    }
}

/// Decimal value of the first `n` characters, all of them digits.
pub open spec fn digits_val_rec(s: Seq<char>, n: int) -> Option<int>
    recommends
        0 <= n <= s.len(),
    decreases n,
{
    if n <= 0 {
        Some(0)
    } else {
        match digits_val_rec(s, n - 1) {
            None => None,
            Some(v) => match digit_of_spec(s[n - 1]) {
                None => None,
                Some(d) => Some(v * 10 + d),
            },
        }
    }
}

/// The signed byte a decimal string denotes, if it denotes one.
pub open spec fn parse_i8_spec(s: Seq<char>) -> Option<int> {
    if s.len() == 0 {
        None
    } else if s[0] == '-' {
        if s.len() == 1 {
            None
        } else {
            match digits_val_rec(s.subrange(1, s.len() as int), s.len() - 1) {
                None => None,
                Some(v) => if v <= 128 {
                    Some(-v)
                } else {
                    None
                },
            }
        }
    } else {
        match digits_val_rec(s, s.len() as int) {
            None => None,
            Some(v) => if v <= 127 {
                Some(v)
            } else {
                None
            },
        }
    }
}

/// The score field of a score-file line: what stands between the first
/// space and the following space or the end of the line.
pub open spec fn second_field_spec(line: Seq<char>) -> Seq<char>
    recommends
        first_space_from(line, 0) is Some,
{
    let i = first_space_from(line, 0)->0;
    match first_space_from(line, i + 1) {
        Some(j) => line.subrange(i + 1, j),
        None => line.subrange(i + 1, line.len() as int),
    }
}

/// A line a score file may hold: a position string, one space, and a
/// decimal score.
pub open spec fn score_line_wf(line: Seq<char>) -> bool {
    &&& first_space_from(line, 0) is Some
    &&& parse_i8_spec(second_field_spec(line)) is Some
}

proof fn lemma_first_space_prefix(s: Seq<char>, i: int)
    requires
        0 <= i <= s.len(),
        forall|k: int| 0 <= k < i ==> s[k] != ' ',
    ensures
        first_space_from(s, 0) == first_space_from(s, i),
    decreases i,
{
    if i > 0 {
        lemma_first_space_prefix(s, i - 1);
    }
}

/// All prefixes of a parsed digit string parse, to values no larger than
/// the whole.
proof fn lemma_digits_prefix(s: Seq<char>, n: int, m: int)
    requires
        0 <= n <= m,
        digits_val_rec(s, m) is Some,
    ensures
        digits_val_rec(s, n) is Some,
        0 <= digits_val_rec(s, n)->0 <= digits_val_rec(s, m)->0,
    decreases m - n,
{
    if n == m {
        lemma_digits_nonneg(s, n);
    } else {
        lemma_digits_prefix(s, n, m - 1);
    }
}

proof fn lemma_digits_nonneg(s: Seq<char>, n: int)
    requires
        digits_val_rec(s, n) is Some,
    ensures
        digits_val_rec(s, n)->0 >= 0,
    decreases n,
{
    if n > 0 {
        lemma_digits_nonneg(s, n - 1);
    }
}

/// Parses an unsigned run of digits, known in advance to fit.
fn parse_digits(s: &str, start: usize) -> (r: i16)
    requires
        start <= s@.len(),
        digits_val_rec(s@.subrange(start as int, s@.len() as int), s@.len() - start) is Some,
        digits_val_rec(s@.subrange(start as int, s@.len() as int), s@.len() - start)->0 <= 128,
    ensures
        r == digits_val_rec(s@.subrange(start as int, s@.len() as int), s@.len() - start)->0,
        0 <= r <= 128,
{
    let n = s.unicode_len();
    let ghost digs = s@.subrange(start as int, s@.len() as int);
    let mut acc: i16 = 0;
    let mut i: usize = start;
    while i < n
        invariant
            start <= i <= n,
            n == s@.len(),
            digs == s@.subrange(start as int, s@.len() as int),
            digits_val_rec(digs, digs.len() as int) is Some,
            digits_val_rec(digs, digs.len() as int)->0 <= 128,
            digits_val_rec(digs, i - start) == Some(acc as int),
            0 <= acc <= 128,
        decreases n - i,
    {
        let c = s.get_char(i);
        proof {
            lemma_digits_prefix(digs, i - start + 1, digs.len() as int);
            assert(digs[i - start] == s@[i as int]);
        }
        match digit_of(c) {
            Some(d) => {
                acc = acc * 10 + (d as i16);
                proof {
                    lemma_digits_prefix(digs, i - start + 1, digs.len() as int);
                }
            },
            None => {
                proof {
                    assert(false);
                }
            },
        }
        i = i + 1;
    }
    proof {
        assert(i - start == digs.len());
    }
    acc
}

fn digit_of(c: char) -> (r: Option<u8>)
    ensures
        r == digit_of_spec(c),
{
    match c {
        '0' => Some(0),
        '1' => Some(1),
        '2' => Some(2),
        '3' => Some(3),
        '4' => Some(4),
        '5' => Some(5),
        '6' => Some(6),
        '7' => Some(7),
        '8' => Some(8),
        '9' => Some(9),
        _ => None,
    }
}

/// Splits a score-file line into the position string and its score.
pub fn line_to_position_score(line: String) -> (r: (String, i8))
    requires
        score_line_wf(line@),
    ensures
        r.0@ == line@.subrange(0, first_space_from(line@, 0)->0),
        r.1 == parse_i8_spec(second_field_spec(line@))->0,
{
    let s = line.as_str();
    let n = s.unicode_len();
    let mut i: usize = 0;
    while i < n && s.get_char(i) != ' '
        invariant
            n == s@.len(),
            0 <= i <= n,
            forall|k: int| 0 <= k < i ==> s@[k] != ' ',
        decreases n - i,
    {
        i = i + 1;
    }
    proof {
        lemma_first_space_prefix(s@, i as int);
        assert(first_space_from(s@, 0) == Some(i as int));
    }
    let prefix = s.substring_char(0, i);

    let mut j: usize = i + 1;
    while j < n && s.get_char(j) != ' '
        invariant
            n == s@.len(),
            i < j <= n,
            forall|k: int| i < k < j ==> s@[k] != ' ',
            first_space_from(s@, 0) == Some(i as int),
            score_line_wf(s@),
        decreases n - j,
    {
        j = j + 1;
    }
    proof {
        lemma_first_space_skip(s@, i as int + 1, j as int);
        if j < n {
            assert(first_space_from(s@, i as int + 1) == Some(j as int));
        } else {
            assert(first_space_from(s@, i as int + 1) is None);
        }
        assert(second_field_spec(s@) =~= s@.subrange(i as int + 1, j as int));
    }
    let field = s.substring_char(i + 1, j);
    let score = parse_i8_field(field);
    (String::from_str(prefix), score)
}

proof fn lemma_first_space_skip(s: Seq<char>, from: int, j: int)
    requires
        0 <= from <= j <= s.len(),
        forall|k: int| from <= k < j ==> s[k] != ' ',
    ensures
        first_space_from(s, from) == first_space_from(s, j),
    decreases j - from,
{
    if from < j {
        lemma_first_space_skip(s, from + 1, j);
    }
}

/// Parses a signed decimal byte, known in advance to be one.
fn parse_i8_field(s: &str) -> (r: i8)
    requires
        parse_i8_spec(s@) is Some,
    ensures
        r == parse_i8_spec(s@)->0,
{
    let n = s.unicode_len();
    if s.get_char(0) == '-' {
        let v = parse_digits(s, 1);
        proof {
            assert(s@.subrange(1, s@.len() as int).len() == s@.len() - 1);
        }
        (-v) as i8
    } else {
        proof {
            assert(s@.subrange(0, s@.len() as int) =~= s@);
        }
        let v = parse_digits(s, 0);
        v as i8
    }
}

} // verus!
