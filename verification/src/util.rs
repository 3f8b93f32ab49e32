use vstd::prelude::*;

verus! {

/// The index of the first newline at or after `from`, or the length of the
/// text when there is none.
pub open spec fn newline_from(s: Seq<char>, from: int) -> int
    decreases s.len() - from,
{
    if from < 0 || from >= s.len() {
        s.len() as int
    } else if s[from] == '\n' {
        from
    } else {
        newline_from(s, from + 1)
    }
}

/// Whether `t` stands at position `i` of the window `[lo, hi)` of `s` as a
/// whole space-separated token: it fills `s` exactly there, and is bounded
/// by the window edge or a space on either side.
pub open spec fn token_at(s: Seq<char>, lo: int, hi: int, t: Seq<char>, i: int) -> bool {
    &&& lo <= i
    &&& i + t.len() <= hi
    &&& s.subrange(i, i + t.len()) == t
    &&& (i == lo || s[i - 1] == ' ')
    &&& (i + t.len() == hi || s[i + t.len()] == ' ')
}

/// Whether `t` occurs as a whole token anywhere in the window `[lo, hi)`.
pub open spec fn token_in_window(s: Seq<char>, lo: int, hi: int, t: Seq<char>) -> bool {
    exists|i: int| token_at(s, lo, hi, t, i)
}

/// Whether the second line of `content` — the controller list of a
/// management-service refusal — carries `controller` as one of its
/// space-separated tokens.
pub open spec fn spec_is_controller(content: Seq<char>, controller: Seq<char>) -> bool {
    let lo = newline_from(content, 0) + 1;
    let hi = newline_from(content, lo);
    token_in_window(content, lo, hi, controller)
}

/// A scan that stopped at `i` with no newline before it pins the value of
/// `newline_from`.
proof fn lemma_newline_from(s: Seq<char>, from: int, i: int)
    requires
        0 <= from <= i <= s.len(),
        forall|j: int| from <= j < i ==> s[j] != '\n',
        i == s.len() || s[i] == '\n',
    ensures
        newline_from(s, from) == i,
    decreases i - from,
{
    if from < i {
        lemma_newline_from(s, from + 1, i);
    }
}

/// Whether `controller` fills `content` exactly at position `i`.
fn match_at(content: &str, i: usize, controller: &str) -> (r: bool)
    requires
        i + controller@.len() <= content@.len(),
    ensures
        r == (content@.subrange(i as int, i + controller@.len()) == controller@),
{
    let n = content.unicode_len();
    let m = controller.unicode_len();
    let mut k: usize = 0;
    while k < m
        invariant
            n == content@.len(),
            m == controller@.len(),
            i + m <= content@.len(),
            k <= m,
            forall|j: int| 0 <= j < k ==> content@[i + j] == controller@[j],
        decreases m - k,
    {
        if content.get_char(i + k) != controller.get_char(k) {
            proof {
                assert(content@.subrange(i as int, i + controller@.len())[k as int]
                    != controller@[k as int]);
            }
            return false;
        }
        k += 1;
    }
    proof {
        assert(content@.subrange(i as int, i + controller@.len()) =~= controller@);
    }
    true
}

/// Whether the textual principal `controller` is listed on the second line
/// of `content`, the shape of the message the management service returns
/// when a caller is not among a canister's controllers. The text must have
/// a first newline, as a message of that shape always does.
pub fn is_controller(content: &str, controller: &str) -> (r: bool)
    requires
        newline_from(content@, 0) < content@.len(),
    ensures
        r == spec_is_controller(content@, controller@),
{
    let n = content.unicode_len();
    let m = controller.unicode_len();
    let mut a: usize = 0;
    while a < n && content.get_char(a) != '\n'
        invariant
            n == content@.len(),
            a <= n,
            forall|j: int| 0 <= j < a ==> content@[j] != '\n',
        decreases n - a,
    {
        a += 1;
    }
    proof {
        lemma_newline_from(content@, 0, a as int);
    }
    let lo = a + 1;
    let mut b: usize = lo;
    while b < n && content.get_char(b) != '\n'
        invariant
            n == content@.len(),
            lo <= b <= n,
            forall|j: int| lo <= j < b ==> content@[j] != '\n',
        decreases n - b,
    {
        b += 1;
    }
    proof {
        lemma_newline_from(content@, lo as int, b as int);
    }
    let hi = b;
    let mut off: usize = 0;
    while off <= hi - lo
        invariant
            n == content@.len(),
            m == controller@.len(),
            1 <= lo <= hi <= n,
            off <= hi - lo + 1,
            newline_from(content@, 0) + 1 == lo,
            newline_from(content@, lo as int) == hi,
            forall|i0: int|
                lo <= i0 < lo + off ==> !token_at(content@, lo as int, hi as int, controller@, i0),
        decreases hi - lo - off + 1,
    {
        let i = lo + off;
        if m <= hi && i <= hi - m {
            let left_ok = i == lo || content.get_char(i - 1) == ' ';
            let right_ok = i + m == hi || content.get_char(i + m) == ' ';
            if left_ok && right_ok && match_at(content, i, controller) {
                proof {
                    assert(token_at(content@, lo as int, hi as int, controller@, i as int));
                }
                return true;
            }
        }
        off += 1;
    }
    proof {
        assert forall|i0: int|
            !token_at(content@, lo as int, hi as int, controller@, i0) by {
            if i0 > hi {
                assert(i0 + controller@.len() > hi);
            }
        }
    }
    false
}

} // verus!
