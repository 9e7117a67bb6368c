//! Whitespace handling for extracted text: collapsing the layout whitespace
//! inside pronunciation strings and trimming definition and sentence lines.

use vstd::prelude::*;
use vstd::string::StrSliceExecFns;

verus! {

/// The whitespace characters that collapsing, trimming and class-token
/// splitting recognize: the Unicode White_Space set, as `str::trim` and
/// `str::split_whitespace` use it.
pub open spec fn is_ws(c: char) -> bool {
    ||| (0x09 <= c as u32 && c as u32 <= 0x0d)
    ||| c as u32 == 0x20
    ||| c as u32 == 0x85
    ||| c as u32 == 0xa0
    ||| c as u32 == 0x1680
    ||| (0x2000 <= c as u32 && c as u32 <= 0x200a)
    ||| c as u32 == 0x2028
    ||| c as u32 == 0x2029
    ||| c as u32 == 0x202f
    ||| c as u32 == 0x205f
    ||| c as u32 == 0x3000
}

/// `s` with every whitespace character removed.
pub open spec fn collapse_spec(s: Seq<char>) -> Seq<char> {
    s.filter(|c: char| !is_ws(c))
}

/// `s` without its leading whitespace characters.
pub open spec fn trim_start_spec(s: Seq<char>) -> Seq<char>
    decreases s.len(),
{
    if s.len() > 0 && is_ws(s[0]) {
        trim_start_spec(s.drop_first())
    } else {
        s
    }
}

/// `s` without its trailing whitespace characters.
pub open spec fn trim_end_spec(s: Seq<char>) -> Seq<char>
    decreases s.len(),
{
    if s.len() > 0 && is_ws(s.last()) {
        trim_end_spec(s.drop_last())
    } else {
        s
    }
}

/// `s` without leading and trailing whitespace.
pub open spec fn trim_spec(s: Seq<char>) -> Seq<char> {
    trim_end_spec(trim_start_spec(s))
}

pub fn is_ws_char(c: char) -> (b: bool)
    ensures
        b == is_ws(c),
{
    let u = c as u32;
    (0x09 <= u && u <= 0x0d) || u == 0x20 || u == 0x85 || u == 0xa0 || u == 0x1680 || (0x2000 <= u
        && u <= 0x200a) || u == 0x2028 || u == 0x2029 || u == 0x202f || u == 0x205f || u == 0x3000
}

/// Relies on `String::push`: appends one character at the end.
#[verifier::external_body]
fn push_char(s: &mut String, c: char)
    ensures
        final(s)@ == old(s)@.push(c),
{
    s.push(c);
}

/// Removes every whitespace character of `s`, keeping all other characters
/// in order.
pub fn collapse_ws(s: &str) -> (r: String)
    ensures
        r@ == collapse_spec(s@),
{
    let n = s.unicode_len();
    let mut r = String::new();
    let mut i: usize = 0;
    proof {
        reveal(Seq::filter);
        assert(s@.take(0) =~= Seq::<char>::empty());
    }
    while i < n
        invariant
            n == s@.len(),
            i <= n,
            r@ == collapse_spec(s@.take(i as int)),
        decreases n - i,
    {
        let c = s.get_char(i);
        if !is_ws_char(c) {
            push_char(&mut r, c);
        }
        proof {
            reveal(Seq::filter);
            let prefix = s@.take(i as int);
            let x = s@.take(i as int + 1);
            assert(x.drop_last() =~= prefix);
            assert(x.last() == s@[i as int]);
            assert(collapse_spec(x) == if !is_ws(x.last()) {
                collapse_spec(prefix).push(x.last())
            } else {
                collapse_spec(prefix)
            });
        }
        i += 1;
    }
    proof {
        assert(s@.take(n as int) =~= s@);
    }
    r
}

proof fn lemma_trim_start_at(s: Seq<char>, k: int)
    requires
        0 <= k <= s.len(),
        forall|i: int| 0 <= i < k ==> is_ws(s[i]),
        k < s.len() ==> !is_ws(s[k]),
    ensures
        trim_start_spec(s) == s.subrange(k, s.len() as int),
    decreases k,
{
    if k == 0 {
        assert(s.subrange(0, s.len() as int) =~= s);
    } else {
        let t = s.drop_first();
        assert(forall|i: int| 0 <= i < k - 1 ==> is_ws(#[trigger] t[i]));
        lemma_trim_start_at(t, k - 1);
        assert(t.subrange(k - 1, t.len() as int) =~= s.subrange(k, s.len() as int));
    }
}

proof fn lemma_trim_end_at(s: Seq<char>, k: int)
    requires
        0 <= k <= s.len(),
        forall|i: int| k <= i < s.len() ==> is_ws(s[i]),
        k > 0 ==> !is_ws(s[k - 1]),
    ensures
        trim_end_spec(s) == s.subrange(0, k),
    decreases s.len() - k,
{
    if k == s.len() {
        assert(s.subrange(0, k) =~= s);
    } else {
        let t = s.drop_last();
        lemma_trim_end_at(t, k);
        assert(t.subrange(0, k) =~= s.subrange(0, k));
    }
}

/// Removes the leading and trailing whitespace of `s`, keeping the rest
/// unchanged.
pub fn trim_str(s: &str) -> (r: String)
    ensures
        r@ == trim_spec(s@),
{
    let n = s.unicode_len();
    let mut a: usize = 0;
    while a < n && is_ws_char(s.get_char(a))
        invariant
            n == s@.len(),
            a <= n,
            forall|i: int| 0 <= i < a ==> is_ws(s@[i]),
        decreases n - a,
    {
        a += 1;
    }
    proof {
        lemma_trim_start_at(s@, a as int);
    }
    if a == n {
        proof {
            assert(s@.subrange(a as int, n as int) =~= Seq::<char>::empty());
        }
        return String::new();
    }
    let mut b: usize = n;
    while b > a + 1 && is_ws_char(s.get_char(b - 1))
        invariant
            n == s@.len(),
            a < b <= n,
            forall|i: int| b <= i < n ==> is_ws(s@[i]),
        decreases b,
    {
        b -= 1;
    }
    // here b > a, and either b == a + 1 or s[b - 1] is not whitespace; in the
    // first case s[a] is not whitespace and sits at b - 1.
    let r = s.substring_char(a, b).to_owned();
    proof {
        let tail = s@.subrange(a as int, n as int);
        assert(!is_ws(tail[0]));
        assert(forall|i: int| (b - a) <= i < tail.len() ==> is_ws(#[trigger] tail[i]));
        assert(!is_ws(tail[b - a - 1]));
        lemma_trim_end_at(tail, b - a);
        assert(tail.subrange(0, b - a) =~= s@.subrange(a as int, b as int));
    }
    r
}

/// Law: a collapsed string contains no whitespace character at all, whatever
/// runs of spaces, tabs or newlines the input held.
pub proof fn lemma_collapse_removes_whitespace(s: Seq<char>)
    ensures
        forall|i: int| 0 <= i < collapse_spec(s).len() ==> !is_ws(collapse_spec(s)[i]),
{
    broadcast use vstd::seq_lib::group_seq_lib_default;

    assert forall|i: int| 0 <= i < collapse_spec(s).len() implies !is_ws(collapse_spec(s)[i]) by {
        s.lemma_filter_pred(|c: char| !is_ws(c), i);
    }
}

} // verus!
