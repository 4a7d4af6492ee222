//! The command language in which administrators edit draft draws:
//! `swap <id> <id>` and `remove <id>`, where an id is a decimal number
//! without leading zeros and any Unicode white space may follow a keyword
//! or an id.

use crate::draft_draw::{EditAction, EditError};
use vstd::prelude::*;
use vstd::std_specs::iter::IteratorSpec;

verus! {

/// The characters with the Unicode `White_Space` property.
pub open spec fn is_space(c: char) -> bool {
    let n = c as u32;
    ||| 0x9 <= n <= 0xd
    ||| n == 0x20
    ||| n == 0x85
    ||| n == 0xa0
    ||| n == 0x1680
    ||| 0x2000 <= n <= 0x200a
    ||| n == 0x2028
    ||| n == 0x2029
    ||| n == 0x202f
    ||| n == 0x205f
    ||| n == 0x3000
}

/// The decimal digits `0` to `9`.
pub open spec fn is_digit(c: char) -> bool {
    '0' <= c && c <= '9'
}

/// The position after the run of white space that starts at `i`.
pub open spec fn space_end(s: Seq<char>, i: int) -> int
    decreases s.len() - i,
{
    if 0 <= i < s.len() && is_space(s[i]) {
        space_end(s, i + 1)
    } else {
        i
    }
}

/// The position after the run of digits that starts at `i`.
pub open spec fn digits_end(s: Seq<char>, i: int) -> int
    decreases s.len() - i,
{
    if 0 <= i < s.len() && is_digit(s[i]) {
        digits_end(s, i + 1)
    } else {
        i
    }
}

/// The end of the id that starts at `i`: a non-zero digit and all the
/// digits after it, or a single `0`; `None` where no id starts.
pub open spec fn id_end(s: Seq<char>, i: int) -> Option<int> {
    if 0 <= i < s.len() && is_digit(s[i]) && s[i] != '0' {
        Some(digits_end(s, i + 1))
    } else if 0 <= i < s.len() && s[i] == '0' {
        Some(i + 1)
    } else {
        None
    }
}

/// The value of the decimal digits `s[i..j]`.
pub open spec fn digits_value(s: Seq<char>, i: int, j: int) -> nat
    decreases j - i,
{
    if j <= i {
        0
    } else {
        digits_value(s, i, j - 1) * 10 + ((s[j - 1] as u32 - '0' as u32) as nat)
    }
}

/// `s` starts with the keyword `k`.
pub open spec fn starts_with(s: Seq<char>, k: Seq<char>) -> bool {
    k.len() <= s.len() && s.subrange(0, k.len() as int) == k
}

pub open spec fn swap_keyword() -> Seq<char> {
    seq!['s', 'w', 'a', 'p']
}

pub open spec fn remove_keyword() -> Seq<char> {
    seq!['r', 'e', 'm', 'o', 'v', 'e']
}

/// Where the two ids of a `swap` command start and end, when `s` begins
/// with one (whatever follows it).
pub open spec fn swap_prefix(s: Seq<char>) -> Option<(int, int, int, int)> {
    if starts_with(s, swap_keyword()) {
        let p1 = space_end(s, 4);
        match id_end(s, p1) {
            Some(e1) => {
                let p2 = space_end(s, e1);
                match id_end(s, p2) {
                    Some(e2) => Some((p1, e1, p2, e2)),
                    None => None,
                }
            },
            None => None,
        }
    } else {
        None
    }
}

/// Where the id of a `remove` command starts and ends, when `s` begins with
/// one (whatever follows it).
pub open spec fn remove_prefix(s: Seq<char>) -> Option<(int, int)> {
    if starts_with(s, remove_keyword()) {
        let p = space_end(s, 6);
        match id_end(s, p) {
            Some(e) => Some((p, e)),
            None => None,
        }
    } else {
        None
    }
}

/// A command begins with an id too large for a `u64`.
pub open spec fn id_overflows(s: Seq<char>) -> bool {
    match swap_prefix(s) {
        Some((p1, e1, p2, e2)) => digits_value(s, p1, e1) > u64::MAX || digits_value(s, p2, e2)
            > u64::MAX,
        None => match remove_prefix(s) {
            Some((p, e)) => digits_value(s, p, e) > u64::MAX,
            None => false,
        },
    }
}

/// The edit that the whole of `s` spells, if any.
pub open spec fn command_action(s: Seq<char>) -> Option<EditAction> {
    match swap_prefix(s) {
        Some((p1, e1, p2, e2)) => if e2 == s.len() {
            Some(EditAction::Swap(digits_value(s, p1, e1) as u64, digits_value(s, p2, e2) as u64))
        } else {
            None
        },
        None => match remove_prefix(s) {
            Some((p, e)) => if e == s.len() {
                Some(EditAction::Remove(digits_value(s, p, e) as u64))
            } else {
                None
            },
            None => None,
        },
    }
}

/// The decimal digit `d`, for `d < 10`.
pub open spec fn digit_char(d: nat) -> char {
    if d == 0 { '0' }
    else if d == 1 { '1' }
    else if d == 2 { '2' }
    else if d == 3 { '3' }
    else if d == 4 { '4' }
    else if d == 5 { '5' }
    else if d == 6 { '6' }
    else if d == 7 { '7' }
    else if d == 8 { '8' }
    else { '9' }
}

/// The decimal numeral of `n`, without leading zeros.
pub open spec fn decimal(n: nat) -> Seq<char>
    decreases n,
{
    if n < 10 {
        seq![digit_char(n)]
    } else {
        decimal(n / 10).push(digit_char(n % 10))
    }
}

/// How an edit is written in the command language, with one space after
/// the keyword and between the ids.
pub open spec fn command_text(a: EditAction) -> Seq<char> {
    match a {
        EditAction::Swap(x, y) => swap_keyword() + seq![' '] + decimal(x as nat) + seq![' '] + decimal(
            y as nat,
        ),
        EditAction::Remove(m) => remove_keyword() + seq![' '] + decimal(m as nat),
    }
}

proof fn lemma_digit_char(d: nat)
    requires
        d < 10,
    ensures
        is_digit(digit_char(d)),
        (digit_char(d) as u32 - '0' as u32) as nat == d,
        (digit_char(d) == '0') == (d == 0),
{
}

/// The value of digits depends only on the digits.
proof fn lemma_digits_value_local(s: Seq<char>, i: int, j: int)
    requires
        0 <= i <= j <= s.len(),
    ensures
        digits_value(s, i, j) == digits_value(s.subrange(i, j), 0, j - i),
    decreases j - i,
{
    if i < j {
        lemma_digits_value_local(s, i, j - 1);
        let t = s.subrange(i, j);
        assert(t.subrange(0, j - 1 - i) =~= s.subrange(i, j - 1));
        lemma_digits_value_local(t, 0, j - 1 - i);
        assert(t[j - 1 - i] == s[j - 1]);
    }
}

proof fn lemma_decimal(n: nat)
    ensures
        decimal(n).len() >= 1,
        forall|k: int| 0 <= k < decimal(n).len() ==> is_digit(#[trigger] decimal(n)[k]),
        (decimal(n)[0] == '0') == (n == 0),
        n == 0 ==> decimal(n).len() == 1,
        digits_value(decimal(n), 0, decimal(n).len() as int) == n,
    decreases n,
{
    if n < 10 {
        lemma_digit_char(n);
        assert(digits_value(decimal(n), 0, 0) == 0);
        assert(digits_value(decimal(n), 0, 1) == digits_value(decimal(n), 0, 0) * 10 + ((decimal(
            n,
        )[0] as u32 - '0' as u32) as nat));
    } else {
        let d = decimal(n / 10);
        lemma_decimal(n / 10);
        lemma_digit_char(n % 10);
        let e = decimal(n);
        let l = d.len() as int;
        assert(e == d.push(digit_char(n % 10)));
        assert(e.subrange(0, l) =~= d);
        lemma_digits_value_local(e, 0, l);
        assert(digits_value(e, 0, l) == n / 10);
        assert(digits_value(e, 0, l + 1) == digits_value(e, 0, l) * 10 + ((e[l] as u32 - '0' as u32) as nat));
        assert(e[l] == digit_char(n % 10));
        assert(n == (n / 10) * 10 + n % 10) by (nonlinear_arith);
    }
}

proof fn lemma_digits_end(s: Seq<char>, i: int, j: int)
    requires
        0 <= i <= j <= s.len(),
        forall|k: int| i <= k < j ==> is_digit(#[trigger] s[k]),
        j == s.len() || !is_digit(s[j]),
    ensures
        digits_end(s, i) == j,
    decreases j - i,
{
    if i < j {
        lemma_digits_end(s, i + 1, j);
    }
}

/// Where the numeral `decimal(n)` stands in `s` at `p`, followed by the end
/// of `s` or a space, an id starts at `p` and ends after the numeral, with
/// the value `n`.
proof fn lemma_numeral_at(s: Seq<char>, p: int, n: nat)
    requires
        0 <= p,
        p + decimal(n).len() <= s.len(),
        s.subrange(p, p + decimal(n).len()) == decimal(n),
        p + decimal(n).len() == s.len() || s[p + decimal(n).len()] == ' ',
    ensures
        id_end(s, p) == Some(p + decimal(n).len()),
        digits_value(s, p, p + decimal(n).len()) == n,
        !is_space(s[p]),
{
    let l = decimal(n).len() as int;
    lemma_decimal(n);
    assert forall|k: int| p <= k < p + l implies is_digit(#[trigger] s[k]) by {
        assert(s[k] == decimal(n)[k - p]);
    }
    assert(s[p] == decimal(n)[0]);
    if n > 0 {
        lemma_digits_end(s, p + 1, p + l);
    }
    lemma_digits_value_local(s, p, p + l);
}

/// Every edit, written in the command language, reads back as itself: its
/// ids fit, and the command spells exactly that edit.
pub proof fn lemma_command_text_reads_back(a: EditAction)
    ensures
        !id_overflows(command_text(a)),
        command_action(command_text(a)) == Some(a),
{
    let s = command_text(a);
    match a {
        EditAction::Swap(x, y) => {
            let d1 = decimal(x as nat);
            let d2 = decimal(y as nat);
            lemma_decimal(x as nat);
            lemma_decimal(y as nat);
            let l1 = d1.len() as int;
            let l2 = d2.len() as int;
            assert(s.len() == 6 + l1 + l2);
            assert(s.subrange(0, 4) =~= swap_keyword());
            assert(s.subrange(5, 5 + l1) =~= d1);
            assert(s.subrange(6 + l1, 6 + l1 + l2) =~= d2);
            assert(s[4] == ' ');
            assert(s[5 + l1] == ' ');
            lemma_numeral_at(s, 5, x as nat);
            lemma_numeral_at(s, 6 + l1, y as nat);
            assert(space_end(s, 5) == 5);
            assert(space_end(s, 4) == 5);
            assert(space_end(s, 6 + l1) == 6 + l1);
            assert(space_end(s, 5 + l1) == 6 + l1);
            assert(swap_prefix(s) == Some((5int, 5 + l1, 6 + l1, 6 + l1 + l2)));
        },
        EditAction::Remove(m) => {
            let d = decimal(m as nat);
            lemma_decimal(m as nat);
            let l = d.len() as int;
            assert(s.len() == 7 + l);
            assert(s.subrange(0, 6) =~= remove_keyword());
            assert(s.subrange(7, 7 + l) =~= d);
            assert(s[6] == ' ');
            assert(s[0] == 'r');
            assert(!starts_with(s, swap_keyword())) by {
                assert(s.subrange(0, 4)[0] != swap_keyword()[0]);
            }
            lemma_numeral_at(s, 7, m as nat);
            assert(space_end(s, 7) == 7);
            assert(space_end(s, 6) == 7);
            assert(remove_prefix(s) == Some((7int, 7 + l)));
        },
    }
}

fn is_space_char(c: char) -> (b: bool)
    ensures
        b == is_space(c),
{
    let n = c as u32;
    (0x9 <= n && n <= 0xd) || n == 0x20 || n == 0x85 || n == 0xa0 || n == 0x1680 || (0x2000 <= n
        && n <= 0x200a) || n == 0x2028 || n == 0x2029 || n == 0x202f || n == 0x205f || n == 0x3000
}

fn is_digit_char(c: char) -> (b: bool)
    ensures
        b == is_digit(c),
{
    '0' <= c && c <= '9'
}

/// The characters of a string.
pub(crate) fn chars_of(s: &str) -> (v: Vec<char>)
    ensures
        v@ == s@,
{
    let mut v: Vec<char> = Vec::new();
    for c in it: s.chars()
        invariant
            v@ == it.seq().take(it.index()),
            it.seq() == s@,
    {
        v.push(c);
    }
    proof {
        assert(s@.take(s@.len() as int) =~= s@);
    }
    v
}

fn skip_space(s: &Vec<char>, i: usize) -> (r: usize)
    requires
        i <= s@.len(),
    ensures
        r == space_end(s@, i as int),
        i <= r <= s@.len(),
{
    let mut j = i;
    while j < s.len() && is_space_char(s[j])
        invariant
            i <= j <= s@.len(),
            space_end(s@, j as int) == space_end(s@, i as int),
        decreases s@.len() - j,
    {
        j = j + 1;
    }
    j
}

fn skip_digits(s: &Vec<char>, i: usize) -> (r: usize)
    requires
        i <= s@.len(),
    ensures
        r == digits_end(s@, i as int),
        i <= r <= s@.len(),
        forall|k: int| i <= k < r ==> is_digit(#[trigger] s@[k]),
{
    let mut j = i;
    while j < s.len() && is_digit_char(s[j])
        invariant
            i <= j <= s@.len(),
            digits_end(s@, j as int) == digits_end(s@, i as int),
            forall|k: int| i <= k < j ==> is_digit(#[trigger] s@[k]),
        decreases s@.len() - j,
    {
        j = j + 1;
    }
    j
}

fn scan_id(s: &Vec<char>, i: usize) -> (r: Option<usize>)
    requires
        i <= s@.len(),
    ensures
        match r {
            Some(e) => id_end(s@, i as int) == Some(e as int) && i < e <= s@.len() && forall|k: int|
                i <= k < e ==> is_digit(#[trigger] s@[k]),
            None => id_end(s@, i as int) is None,
        },
{
    if i < s.len() && is_digit_char(s[i]) && s[i] != '0' {
        Some(skip_digits(s, i + 1))
    } else if i < s.len() && s[i] == '0' {
        Some(i + 1)
    } else {
        None
    }
}

/// The value of the digits `s[i..j]`, or `None` when it exceeds `u64::MAX`.
fn value_of(s: &Vec<char>, i: usize, j: usize) -> (r: Option<u64>)
    requires
        i <= j <= s@.len(),
        forall|k: int| i <= k < j ==> is_digit(#[trigger] s@[k]),
    ensures
        match r {
            Some(v) => v == digits_value(s@, i as int, j as int),
            None => digits_value(s@, i as int, j as int) > u64::MAX,
        },
{
    let mut k = i;
    let mut acc: u64 = 0;
    while k < j
        invariant
            i <= k <= j <= s@.len(),
            forall|m: int| i <= m < j ==> is_digit(#[trigger] s@[m]),
            acc == digits_value(s@, i as int, k as int),
        decreases j - k,
    {
        let d = (s[k] as u32 - '0' as u32) as u64;
        assert(is_digit(s@[k as int]));
        match acc.checked_mul(10) {
            Some(t) => match t.checked_add(d) {
                Some(n) => {
                    acc = n;
                },
                None => {
                    proof {
                        lemma_digits_value_grows(s@, i as int, k + 1, j as int);
                    }
                    return None;
                },
            },
            None => {
                proof {
                    lemma_digits_value_grows(s@, i as int, k + 1, j as int);
                }
                return None;
            },
        }
        k = k + 1;
    }
    Some(acc)
}

/// Adding digits never makes a number smaller.
pub proof fn lemma_digits_value_grows(s: Seq<char>, i: int, k: int, j: int)
    requires
        i <= k <= j,
    ensures
        digits_value(s, i, k) <= digits_value(s, i, j),
    decreases j - k,
{
    if k < j {
        lemma_digits_value_grows(s, i, k, j - 1);
    }
}

fn keyword_at_start(s: &Vec<char>, k: &Vec<char>) -> (b: bool)
    ensures
        b == starts_with(s@, k@),
{
    if k.len() > s.len() {
        return false;
    }
    let mut i: usize = 0;
    while i < k.len()
        invariant
            k@.len() <= s@.len(),
            0 <= i <= k@.len(),
            forall|m: int| 0 <= m < i ==> s@[m] == k@[m],
        decreases k@.len() - i,
    {
        if s[i] != k[i] {
            assert(s@.subrange(0, k@.len() as int)[i as int] != k@[i as int]);
            return false;
        }
        i = i + 1;
    }
    assert(s@.subrange(0, k@.len() as int) =~= k@);
    true
}

/// How a command was read: an edit, a malformed command, or an id too large
/// for a `u64`.
enum Scan {
    Action(EditAction),
    Malformed,
    TooLarge,
}

fn scan(cmd: &str) -> (r: Scan)
    ensures
        match r {
            Scan::Action(a) => !id_overflows(cmd@) && command_action(cmd@) == Some(a),
            Scan::Malformed => !id_overflows(cmd@) && command_action(cmd@) is None,
            Scan::TooLarge => id_overflows(cmd@),
        },
{
    let s = chars_of(cmd);
    let swap: Vec<char> = vec!['s', 'w', 'a', 'p'];
    let remove: Vec<char> = vec!['r', 'e', 'm', 'o', 'v', 'e'];
    assert(swap@ =~= swap_keyword());
    assert(remove@ =~= remove_keyword());
    if keyword_at_start(&s, &swap) {
        let p1 = skip_space(&s, 4);
        if let Some(e1) = scan_id(&s, p1) {
            let p2 = skip_space(&s, e1);
            if let Some(e2) = scan_id(&s, p2) {
                let a = value_of(&s, p1, e1);
                let b = value_of(&s, p2, e2);
                match (a, b) {
                    (Some(a), Some(b)) => {
                        if e2 == s.len() {
                            return Scan::Action(EditAction::Swap(a, b));
                        } else {
                            return Scan::Malformed;
                        }
                    },
                    _ => {
                        return Scan::TooLarge;
                    },
                }
            }
        }
    }
    if keyword_at_start(&s, &remove) {
        let p = skip_space(&s, 6);
        if let Some(e) = scan_id(&s, p) {
            match value_of(&s, p, e) {
                Some(m) => {
                    if e == s.len() {
                        return Scan::Action(EditAction::Remove(m));
                    } else {
                        return Scan::Malformed;
                    }
                },
                None => {
                    return Scan::TooLarge;
                },
            }
        }
    }
    Scan::Malformed
}

impl EditAction {
    /// Reads an edit command: `swap <id> <id>` or `remove <id>`, the whole
    /// of `cmd` and nothing more. A command that does not read so is
    /// reported with the one-word message "error".
    pub fn parse(cmd: &str) -> (r: Result<EditAction, EditError>)
        requires
            !id_overflows(cmd@),
        ensures
            match command_action(cmd@) {
                Some(a) => r == Ok::<EditAction, EditError>(a),
                None => r matches Err(EditError::ParseErr(m)) && m@ == "error"@,
            },
    {
        match scan(cmd) {
            Scan::Action(a) => Ok(a),
            _ => Err(EditError::ParseErr(String::from_str("error"))),
        }
    }

    /// The command begins like an edit but one of its ids is larger than a
    /// `u64` can hold.
    pub fn id_too_large(cmd: &str) -> (b: bool)
        ensures
            b == id_overflows(cmd@),
    {
        match scan(cmd) {
            Scan::TooLarge => true,
            _ => false,
        }
    }
}

} // verus!
