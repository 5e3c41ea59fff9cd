use vstd::prelude::*;

use crate::errors::StoreError;
use crate::models::str_eq;
use vstd::string::StrSliceExecFns;

verus! {

/// True for the characters of Unicode's White_Space set: what `trim_spec`
/// strips from the ends of a line read from the terminal.
pub open spec fn is_space(c: char) -> bool {
    let u = c as u32;
    ||| u == 0x09
    ||| u == 0x0A
    ||| u == 0x0B
    ||| u == 0x0C
    ||| u == 0x0D
    ||| u == 0x20
    ||| u == 0x85
    ||| u == 0xA0
    ||| u == 0x1680
    ||| (0x2000 <= u && u <= 0x200A)
    ||| u == 0x2028
    ||| u == 0x2029
    ||| u == 0x202F
    ||| u == 0x205F
    ||| u == 0x3000
}

fn is_space_exec(c: char) -> (r: bool)
    ensures
        r == is_space(c),
{
    let u = c as u32;
    u == 0x09 || u == 0x0A || u == 0x0B || u == 0x0C || u == 0x0D || u == 0x20 || u == 0x85 || u
        == 0xA0 || u == 0x1680 || (0x2000 <= u && u <= 0x200A) || u == 0x2028 || u == 0x2029 || u
        == 0x202F || u == 0x205F || u == 0x3000
}

/// A sequence with its leading whitespace dropped.
pub open spec fn trim_start_spec(s: Seq<char>) -> Seq<char>
    decreases s.len(),
{
    if s.len() > 0 && is_space(s[0]) {
        trim_start_spec(s.drop_first())
    } else {
        s
    }
}

/// A sequence with its trailing whitespace dropped.
pub open spec fn trim_end_spec(s: Seq<char>) -> Seq<char>
    decreases s.len(),
{
    if s.len() > 0 && is_space(s.last()) {
        trim_end_spec(s.drop_last())
    } else {
        s
    }
}

/// A sequence with whitespace dropped from both ends: what entering a
/// password keeps of the line that was typed.
pub open spec fn trim_spec(s: Seq<char>) -> Seq<char> {
    trim_end_spec(trim_start_spec(s))
}

proof fn lemma_trim_start(s: Seq<char>, lo: int)
    requires
        0 <= lo <= s.len(),
        forall|k: int| 0 <= k < lo ==> is_space(s[k]),
        lo < s.len() ==> !is_space(s[lo]),
    ensures
        trim_start_spec(s) == s.subrange(lo, s.len() as int),
    decreases lo,
{
    if lo == 0 {
        assert(s.subrange(0, s.len() as int) =~= s);
    } else {
        assert(is_space(s[0]));
        let d = s.drop_first();
        assert(d =~= s.subrange(1, s.len() as int));
        assert(forall|k: int| 0 <= k < lo - 1 ==> is_space(#[trigger] d[k]));
        lemma_trim_start(d, lo - 1);
        assert(d.subrange(lo - 1, d.len() as int) =~= s.subrange(lo, s.len() as int));
    }
}

proof fn lemma_trim_end(s: Seq<char>, hi: int)
    requires
        0 <= hi <= s.len(),
        forall|k: int| hi <= k < s.len() ==> is_space(s[k]),
        hi > 0 ==> !is_space(s[hi - 1]),
    ensures
        trim_end_spec(s) == s.subrange(0, hi),
    decreases s.len(),
{
    if hi == s.len() {
        if s.len() > 0 {
            assert(!is_space(s.last()));
        }
        assert(s.subrange(0, s.len() as int) =~= s);
    } else {
        assert(is_space(s.last()));
        let d = s.drop_last();
        assert(d =~= s.subrange(0, s.len() - 1));
        assert(forall|k: int| hi <= k < d.len() ==> is_space(#[trigger] d[k]));
        lemma_trim_end(d, hi);
        assert(d.subrange(0, hi) =~= s.subrange(0, hi));
    }
}

/// The policy behind the password prompt: of the line that was read from
/// the terminal, the entered password is the line with surrounding
/// whitespace trimmed.  Reading the line itself is the caller's concern.
#[verifier::loop_isolation(false)]
pub fn prompt_for_password(line: &str) -> (r: String)
    ensures
        r@ == trim_spec(line@),
{
    let n = line.unicode_len();
    let mut lo: usize = 0;
    let mut stop_lo = false;
    while !stop_lo && lo < n
        invariant
            0 <= lo <= n,
            n == line@.len(),
            forall|k: int| 0 <= k < lo ==> is_space(line@[k]),
            stop_lo ==> lo < n && !is_space(line@[lo as int]),
        decreases n - lo + (if stop_lo { 0int } else { 1int }),
    {
        if is_space_exec(line.get_char(lo)) {
            lo += 1;
        } else {
            stop_lo = true;
        }
    }
    let mut hi: usize = n;
    let mut stop_hi = false;
    while !stop_hi && hi > lo
        invariant
            lo <= hi <= n,
            forall|k: int| hi <= k < n ==> is_space(line@[k]),
            stop_hi ==> hi > lo && !is_space(line@[hi - 1]),
        decreases hi - lo + (if stop_hi { 0int } else { 1int }),
    {
        if is_space_exec(line.get_char(hi - 1)) {
            hi -= 1;
        } else {
            stop_hi = true;
        }
    }
    let trimmed = line.substring_char(lo, hi);
    proof {
        lemma_trim_start(line@, lo as int);
        let sub = line@.subrange(lo as int, line@.len() as int);
        assert(forall|k: int|
            hi - lo <= k < sub.len() ==> is_space(#[trigger] sub[k]));
        if hi > lo {
            assert(!is_space(sub[hi - lo - 1]));
        }
        lemma_trim_end(sub, hi - lo);
        assert(sub.subrange(0, hi - lo) =~= line@.subrange(lo as int, hi as int));
    }
    trimmed.to_owned()
}

/// The policy behind setting a new master password: the two lines read from
/// the terminal must agree after trimming, and the trimmed first line is
/// the password that was set.  Reading the lines is the caller's concern.
pub fn prompt_for_new_password(line: &str, confirm: &str) -> (r: Result<String, StoreError>)
    ensures
        r is Ok <==> trim_spec(line@) == trim_spec(confirm@),
        r matches Ok(s) ==> s@ == trim_spec(line@),
        r is Err ==> r == Err::<String, StoreError>(StoreError::PasswordConfirmationMismatch),
{
    let entered = prompt_for_password(line);
    let confirmed = prompt_for_password(confirm);
    if str_eq(entered.as_str(), confirmed.as_str()) {
        Ok(entered)
    } else {
        Err(StoreError::PasswordConfirmationMismatch)
    }
}

} // verus!
