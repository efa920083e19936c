use vstd::prelude::*;

verus! {

/// The value that stands for a piece with no digit at either end.
pub const UNREADABLE_ID: i32 = 9999999;

/// A piece of an identifier list that cannot be read as a number.
#[derive(Debug, Clone, Copy, PartialEq, Eq)]
pub struct IdListError {
    /// The position of the first such piece among the comma-separated pieces.
    pub piece: usize,
}

pub open spec fn is_digit(c: char) -> bool {
    '0' <= c && c <= '9'
}

/// The value of a sequence of decimal digits.
pub open spec fn digits_value(s: Seq<char>) -> int
    decreases s.len(),
{
    if s.len() == 0 {
        0
    } else {
        digits_value(s.drop_last()) * 10 + (s.last() as int - '0' as int)
    }
}

pub open spec fn all_digits(s: Seq<char>) -> bool {
    forall|i: int| 0 <= i < s.len() ==> is_digit(#[trigger] s[i])
}

/// `s` without its leading sign, if it has one.
pub open spec fn unsigned_part(s: Seq<char>) -> Seq<char> {
    if s.len() > 0 && (s[0] == '-' || s[0] == '+') {
        s.skip(1)
    } else {
        s
    }
}

/// Reads `s` as an `i32` written in decimal with an optional sign, as `str::parse` does.
pub open spec fn parse_i32(s: Seq<char>) -> Option<i32> {
    let neg = s.len() > 0 && s[0] == '-';
    let body = unsigned_part(s);
    if body.len() == 0 || !all_digits(body) {
        None
    } else {
        let v = if neg {
            -digits_value(body)
        } else {
            digits_value(body)
        };
        if i32::MIN <= v <= i32::MAX {
            Some(v as i32)
        } else {
            None
        }
    }
}

/// Whether `c` takes one byte in UTF-8.
pub open spec fn one_byte(c: char) -> bool {
    (c as u32) < 128
}

/// Whether `c` is a number character in Unicode's sense.
pub uninterp spec fn numeric_char(c: char) -> bool;

/// What one piece of the list stands for: its value; else, when it starts with a
/// number character, its value without the last character; else, when it ends
/// with one, its value without the first; else `UNREADABLE_ID`. `None` where
/// the piece is empty or what is left after dropping a character is no number.
pub open spec fn piece_value(x: Seq<char>) -> Option<i32> {
    match parse_i32(x) {
        Some(v) => Some(v),
        None => if x.len() == 0 {
            None
        } else if numeric_char(x[0]) {
            if one_byte(x.last()) {
                parse_i32(x.drop_last())
            } else {
                None
            }
        } else if numeric_char(x.last()) {
            if one_byte(x[0]) {
                parse_i32(x.skip(1))
            } else {
                None
            }
        } else {
            Some(UNREADABLE_ID)
        },
    }
}

/// The pieces of `s` between commas, as `str::split(",")` gives them.
pub open spec fn split_commas(s: Seq<char>) -> Seq<Seq<char>>
    decreases s.len(),
{
    if s.len() == 0 {
        seq![Seq::empty()]
    } else {
        let init = split_commas(s.drop_last());
        if s.last() == ',' {
            init.push(Seq::empty())
        } else {
            init.update(init.len() - 1, init.last().push(s.last()))
        }
    }
}

/// Relies on `str::chars`: the characters of `s`, in order.
#[verifier::external_body]
fn chars_of(s: &str) -> (r: Vec<char>)
    ensures
        r@ == s@,
{
    s.chars().collect()
}

/// Relies on `char::is_numeric`, which depends on the character alone and holds
/// of the ASCII digits.
#[verifier::external_body]
fn is_numeric(c: char) -> (r: bool)
    ensures
        r == numeric_char(c),
        is_digit(c) ==> r,
{
    c.is_numeric()
}

proof fn lemma_digits_value_nonneg(s: Seq<char>)
    requires
        forall|i: int| 0 <= i < s.len() ==> is_digit(#[trigger] s[i]),
    ensures
        digits_value(s) >= 0,
    decreases s.len(),
{
    if s.len() > 0 {
        lemma_digits_value_nonneg(s.drop_last());
    }
}

/// Reads `v[lo..hi]` as `str::parse::<i32>` would.
pub fn parse_range(v: &Vec<char>, lo: usize, hi: usize) -> (r: Option<i32>)
    requires
        lo <= hi <= v.len(),
    ensures
        r == parse_i32(v@.subrange(lo as int, hi as int)),
{
    let ghost s = v@.subrange(lo as int, hi as int);
    let mut i: usize = lo;
    let mut neg = false;
    if lo < hi && (v[lo] == '-' || v[lo] == '+') {
        neg = v[lo] == '-';
        i = lo + 1;
        assert(s.skip(1) =~= v@.subrange(i as int, hi as int));
    } else {
        assert(s =~= v@.subrange(i as int, hi as int));
    }
    let ghost body = v@.subrange(i as int, hi as int);
    assert(body == unsigned_part(s));
    if i == hi {
        return None;
    }
    let start = i;
    let mut acc: i64 = 0;
    let mut over = false;
    while i < hi
        invariant
            lo <= start <= i <= hi <= v.len(),
            body == v@.subrange(start as int, hi as int),
            s == v@.subrange(lo as int, hi as int),
            body == unsigned_part(s),
            neg == (s.len() > 0 && s[0] == '-'),
            forall|k: int| start <= k < i ==> is_digit(#[trigger] v@[k]),
            !over ==> acc == digits_value(v@.subrange(start as int, i as int)) && 0 <= acc
                <= 2147483648,
            over ==> digits_value(v@.subrange(start as int, i as int)) > 2147483648,
        decreases hi - i,
    {
        let c = v[i];
        if !('0' <= c && c <= '9') {
            assert(body[i - start] == c);
            assert(!is_digit(body[i - start]));
            assert(!all_digits(body));
            return None;
        }
        let d = (c as u32 - '0' as u32) as i64;
        proof {
            assert(v@.subrange(start as int, i + 1).drop_last() =~= v@.subrange(
                start as int,
                i as int,
            ));
            assert(d == c as int - '0' as int);
        }
        if !over {
            let n = acc * 10 + d;
            if n > 2147483648 {
                over = true;
            } else {
                acc = n;
            }
        }
        i = i + 1;
    }
    assert forall|k: int| 0 <= k < body.len() implies is_digit(#[trigger] body[k]) by {
        assert(body[k] == v@[start + k]);
    }
    assert(all_digits(body));
    assert(v@.subrange(start as int, i as int) =~= body);
    if over {
        return None;
    }
    if neg {
        Some((-acc) as i32)
    } else if acc <= 2147483647 {
        Some(acc as i32)
    } else {
        None
    }
}

/// Reads the piece `v[lo..hi]` of an identifier list.
pub fn read_piece(v: &Vec<char>, lo: usize, hi: usize) -> (r: Option<i32>)
    requires
        lo <= hi <= v.len(),
    ensures
        r == piece_value(v@.subrange(lo as int, hi as int)),
{
    let ghost x = v@.subrange(lo as int, hi as int);
    match parse_range(v, lo, hi) {
        Some(n) => Some(n),
        None => {
            if lo == hi {
                None
            } else if is_numeric(v[lo]) {
                if (v[hi - 1] as u32) < 128 {
                    assert(x.drop_last() =~= v@.subrange(lo as int, hi - 1));
                    parse_range(v, lo, hi - 1)
                } else {
                    None
                }
            } else if is_numeric(v[hi - 1]) {
                if (v[lo] as u32) < 128 {
                    assert(x.skip(1) =~= v@.subrange(lo + 1, hi as int));
                    parse_range(v, lo + 1, hi)
                } else {
                    None
                }
            } else {
                Some(UNREADABLE_ID)
            }
        },
    }
}

proof fn lemma_split_nonempty(s: Seq<char>)
    ensures
        split_commas(s).len() >= 1,
    decreases s.len(),
{
    if s.len() > 0 {
        lemma_split_nonempty(s.drop_last());
    }
}

/// The pieces of a prefix of `s` that a comma has closed are pieces of `s` too.
proof fn lemma_split_prefix(s: Seq<char>, m: int)
    requires
        0 <= m <= s.len(),
    ensures
        split_commas(s.take(m)).len() <= split_commas(s).len(),
        forall|j: int|
            0 <= j < split_commas(s.take(m)).len() - 1 ==> #[trigger] split_commas(s)[j]
                == split_commas(s.take(m))[j],
    decreases s.len() - m,
{
    if m < s.len() {
        lemma_split_prefix(s, m + 1);
        assert(s.take(m + 1).drop_last() =~= s.take(m));
        lemma_split_nonempty(s.take(m));
    } else {
        assert(s.take(m) =~= s);
    }
}

/// Reads a comma-separated list of identifiers, piece by piece as `piece_value`
/// says. Fails on the first piece that cannot be read.
pub fn char_delimited_string_to_array(string: &String) -> (r: Result<Vec<i32>, IdListError>)
    ensures
        match r {
            Ok(ids) => {
                &&& ids@.len() == split_commas(string@).len()
                &&& forall|j: int|
                    0 <= j < ids@.len() ==> piece_value(#[trigger] split_commas(string@)[j])
                        == Some(ids@[j])
            },
            Err(e) => {
                &&& e.piece < split_commas(string@).len()
                &&& piece_value(split_commas(string@)[e.piece as int]) is None
                &&& forall|j: int|
                    0 <= j < e.piece ==> piece_value(#[trigger] split_commas(string@)[j]) is Some
            },
        },
{
    let cs = chars_of(string.as_str());
    let ghost t = cs@;
    let n = cs.len();
    let mut out: Vec<i32> = Vec::new();
    let mut start: usize = 0;
    let mut i: usize = 0;
    let ghost mut closed: Seq<Seq<char>> = Seq::empty();
    assert(t.take(0) =~= Seq::<char>::empty());
    assert(t.subrange(0, 0) =~= Seq::<char>::empty());
    assert(split_commas(t.take(0)) =~= closed.push(t.subrange(0, 0)));
    while i < n
        invariant
            t == cs@,
            t == string@,
            n == cs.len(),
            start <= i <= n,
            split_commas(t.take(i as int)) == closed.push(t.subrange(start as int, i as int)),
            closed.len() == out@.len(),
            forall|j: int| 0 <= j < out@.len() ==> piece_value(#[trigger] closed[j]) == Some(out@[j]),
        decreases n - i,
    {
        assert(t.take(i + 1).drop_last() =~= t.take(i as int));
        if cs[i] == ',' {
            proof {
                lemma_split_prefix(t, i + 1);
            }
            assert(split_commas(t.take(i + 1)) == closed.push(t.subrange(start as int, i as int)).push(Seq::empty()));
            match read_piece(&cs, start, i) {
                Some(x) => {
                    proof {
                        closed = closed.push(t.subrange(start as int, i as int));
                    }
                    out.push(x);
                    start = i + 1;
                    assert(t.subrange(start as int, i + 1) =~= Seq::<char>::empty());
                    assert(split_commas(t.take(i + 1)) =~= closed.push(t.subrange(start as int, i + 1)));
                },
                None => {
                    assert(split_commas(t)[out@.len() as int] == t.subrange(start as int, i as int));
                    return Err(IdListError { piece: out.len() });
                },
            }
        } else {
            assert(t.subrange(start as int, i + 1) =~= t.subrange(start as int, i as int).push(cs@[i as int]));
            assert(split_commas(t.take(i + 1)) =~= closed.push(t.subrange(start as int, i + 1)));
        }
        i = i + 1;
    }
    assert(t.take(n as int) =~= t);
    match read_piece(&cs, start, n) {
        Some(x) => {
            out.push(x);
            assert(split_commas(t) =~= closed.push(t.subrange(start as int, n as int)));
            Ok(out)
        },
        None => Err(IdListError { piece: out.len() }),
    }
}

} // verus!
