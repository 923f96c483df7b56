//! YCSB trace lines: the user id that a line names, as a key.
use vstd::prelude::*;

verus! {

/// The pattern of a YCSB trace line that names a key: the digits after
/// `usertable user` are its user id.
pub const YCSB_KEY_PATTERN: &'static str = r".*usertable user(\d+).*";

/// What the regex crate's `captures_iter` finds, for each match of `pattern`
/// in `line`, in capture group 1 (`None` where the group took no part in the
/// match).
pub uninterp spec fn regex_group_one_matches(pattern: Seq<char>, line: Seq<char>) -> Seq<
    Option<Seq<char>>,
>;

/// The characters of a capture, if the group took part in the match.
pub open spec fn capture_view(c: Option<Vec<char>>) -> Option<Seq<char>> {
    match c {
        Some(v) => Some(v@),
        None => None,
    }
}

/// Relies on `regex::Regex::new` and `Regex::captures_iter` with
/// `Captures::get(1)`: compiles `pattern` (which succeeds for the valid key
/// pattern, far below the size limit; `None` when it does not compile) and
/// hands back group 1 of every match in `line`, in order.
#[verifier::external_body]
fn group_one_matches(pattern: &str, line: &str) -> (r: Option<Vec<Option<Vec<char>>>>)
    ensures
        pattern@ == YCSB_KEY_PATTERN@ ==> r is Some,
        r matches Some(v) ==> v@.len() == regex_group_one_matches(pattern@, line@).len() && forall|
            i: int,
        |
            0 <= i < v@.len() ==> #[trigger] capture_view(v@[i]) == regex_group_one_matches(
                pattern@,
                line@,
            )[i],
{
    match regex::Regex::new(pattern) {
        Ok(re) => Some(
            re.captures_iter(line).map(|c| c.get(1).map(|m| m.as_str().chars().collect())).collect(),
        ),
        Err(_) => None,
    }
}

/// Whether a capture took part in its match and is a decimal numeral that
/// fits in a `u64`.
pub open spec fn is_key_capture(c: Option<Seq<char>>) -> bool {
    &&& c is Some
    &&& is_u64_numeral(c.unwrap())
}

pub open spec fn is_ascii_digit(c: char) -> bool {
    '0' <= c && c <= '9'
}

/// The number that the ASCII digits `s` spell in decimal.
pub open spec fn decimal_value(s: Seq<char>) -> int
    decreases s.len(),
{
    if s.len() == 0 {
        0
    } else {
        decimal_value(s.drop_last()) * 10 + (s.last() as int - '0' as int)
    }
}

/// Whether `s` is a decimal numeral whose value fits in a `u64`.
pub open spec fn is_u64_numeral(s: Seq<char>) -> bool {
    &&& s.len() > 0
    &&& forall|i: int| 0 <= i < s.len() ==> #[trigger] is_ascii_digit(s[i])
    &&& decimal_value(s) <= u64::MAX
}

proof fn lemma_decimal_grows(s: Seq<char>, i: int, j: int)
    requires
        0 <= i <= j <= s.len(),
        forall|k: int| 0 <= k < s.len() ==> #[trigger] is_ascii_digit(s[k]),
    ensures
        0 <= decimal_value(s.take(i)) <= decimal_value(s.take(j)),
    decreases j,
{
    if j > 0 {
        if i < j {
            lemma_decimal_grows(s, i, j - 1);
        } else {
            lemma_decimal_grows(s, i - 1, j - 1);
        }
        assert(s.take(j).drop_last() =~= s.take(j - 1));
        assert(is_ascii_digit(s[j - 1]));
    } else {
        assert(s.take(0) =~= Seq::<char>::empty());
    }
}

/// The value of the decimal numeral `digits`: `None` when it is empty, holds
/// anything but ASCII digits, or does not fit in a `u64`.
pub fn parse_decimal(digits: &Vec<char>) -> (r: Option<u64>)
    ensures
        r is Some <==> is_u64_numeral(digits@),
        r matches Some(v) ==> v == decimal_value(digits@),
{
    let ghost s = digits@;
    if digits.len() == 0 {
        return None;
    }
    let mut v: u64 = 0;
    let mut i: usize = 0;
    assert(s.take(0) =~= Seq::<char>::empty());
    while i < digits.len()
        invariant
            i <= s.len(),
            s == digits@,
            s.len() > 0,
            forall|k: int| 0 <= k < i ==> #[trigger] is_ascii_digit(s[k]),
            v == decimal_value(s.take(i as int)),
        decreases s.len() - i,
    {
        let c = digits[i];
        if !('0' <= c && c <= '9') {
            assert(!is_ascii_digit(s[i as int]));
            return None;
        }
        let d = (c as u32 - '0' as u32) as u64;
        assert(s.take(i + 1).drop_last() =~= s.take(i as int));
        if v > (u64::MAX - d) / 10 {
            proof {
                assert(v * 10 + d > u64::MAX) by (nonlinear_arith)
                    requires
                        v > (u64::MAX - d) / 10,
                        d <= 9,
                ;
                if forall|k: int| 0 <= k < s.len() ==> #[trigger] is_ascii_digit(s[k]) {
                    lemma_decimal_grows(s, i + 1, s.len() as int);
                    assert(s.take(s.len() as int) =~= s);
                }
            }
            return None;
        }
        assert(v * 10 + d <= u64::MAX) by (nonlinear_arith)
            requires
                v <= (u64::MAX - d) / 10,
                d <= 9,
        ;
        v = v * 10 + d;
        i = i + 1;
    }
    assert(s.take(s.len() as int) =~= s);
    Some(v)
}

/// The keys that the captured user ids `captures` name, in order: `None` when
/// one of them is missing or is not a decimal numeral that fits in a `u64`.
pub fn keys_from_captures(captures: &Vec<Option<Vec<char>>>) -> (r: Option<Vec<u64>>)
    ensures
        r is Some <==> forall|i: int|
            0 <= i < captures@.len() ==> #[trigger] is_key_capture(capture_view(captures@[i])),
        r matches Some(v) ==> v@.len() == captures@.len() && forall|i: int|
            0 <= i < v@.len() ==> #[trigger] v@[i] == decimal_value(
                capture_view(captures@[i]).unwrap(),
            ),
{
    let mut out: Vec<u64> = Vec::new();
    let mut i: usize = 0;
    while i < captures.len()
        invariant
            i <= captures@.len(),
            out@.len() == i,
            forall|k: int| 0 <= k < i ==> #[trigger] is_key_capture(capture_view(captures@[k])),
            forall|k: int|
                0 <= k < i ==> #[trigger] out@[k] == decimal_value(
                    capture_view(captures@[k]).unwrap(),
                ),
        decreases captures@.len() - i,
    {
        match &captures[i] {
            Some(digits) => match parse_decimal(digits) {
                Some(k) => out.push(k),
                None => {
                    assert(!is_key_capture(capture_view(captures@[i as int])));
                    return None;
                },
            },
            None => {
                assert(!is_key_capture(capture_view(captures@[i as int])));
                return None;
            },
        }
        i = i + 1;
    }
    Some(out)
}

/// Why a YCSB trace line cannot be turned into keys.
#[derive(Clone, Copy, Debug, PartialEq, Eq, Structural)]
pub enum YcsbError {
    /// A user id is not a decimal numeral that fits in a `u64`.
    UserId,
}

/// The keys that one YCSB trace line names: the user id after each
/// `usertable user` that the key pattern matches. `Ok` exactly when every
/// captured user id fits in a `u64`.
pub fn ycsb_line_keys(line: &str) -> (r: Result<Vec<u64>, YcsbError>)
    ensures
        r is Ok <==> forall|i: int|
            0 <= i < regex_group_one_matches(YCSB_KEY_PATTERN@, line@).len() ==> is_key_capture(
                #[trigger] regex_group_one_matches(YCSB_KEY_PATTERN@, line@)[i],
            ),
        r matches Ok(v) ==> {
            let caps = regex_group_one_matches(YCSB_KEY_PATTERN@, line@);
            &&& v@.len() == caps.len()
            &&& forall|i: int| 0 <= i < v@.len() ==> #[trigger] v@[i] == decimal_value(caps[i].unwrap())
        },
        r matches Err(e) ==> e == YcsbError::UserId,
{
    match group_one_matches(YCSB_KEY_PATTERN, line) {
        None => Err(YcsbError::UserId),
        Some(caps) => {
            let ghost c = regex_group_one_matches(YCSB_KEY_PATTERN@, line@);
            assert forall|i: int| 0 <= i < c.len() implies capture_view(caps@[i]) == c[i] by {}
            match keys_from_captures(&caps) {
                Some(keys) => {
                    assert forall|i: int| 0 <= i < c.len() implies is_key_capture(
                        #[trigger] c[i],
                    ) by {
                        assert(is_key_capture(capture_view(caps@[i])));
                    }
                    assert forall|i: int| 0 <= i < keys@.len() implies #[trigger] keys@[i]
                        == decimal_value(c[i].unwrap()) by {
                        assert(capture_view(caps@[i]) == c[i]);
                    }
                    Ok(keys)
                },
                None => {
                    let ghost i = choose|i: int|
                        0 <= i < caps@.len() && !is_key_capture(
                            #[trigger] capture_view(caps@[i]),
                        );
                    assert(capture_view(caps@[i]) == c[i]);
                    Err(YcsbError::UserId)
                },
            }
        },
    }
}

} // verus!
