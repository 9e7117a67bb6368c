//! Structural query predicates over document nodes: by tag name, by CSS
//! class token, by attribute key and value, and by a contained descendant.
//! The searches walk a subtree in document order, depth first.

use vstd::prelude::*;
use vstd::string::StrSliceExecFns;

use crate::dom::{desc, desc_list, Attr, DomNode};
use crate::text::is_ws;

verus! {

/// A matching rule over a single node, as a mathematical value.
pub enum PredV {
    ByTag(Seq<char>),
    ByClass(Seq<char>),
    ByAttr(Seq<char>, Seq<char>),
    HasDescendant(Box<PredV>, Box<PredV>),
}

/// A matching rule over a single node: by tag name (case-insensitive), by
/// CSS class token, by exact attribute value, or by matching `outer` while
/// containing a descendant matching `inner`.
pub enum Pred {
    ByTag(String),
    ByClass(String),
    ByAttr(String, String),
    HasDescendant(Box<Pred>, Box<Pred>),
}

pub open spec fn pred_view(p: Pred) -> PredV
    decreases p,
{
    match p {
        Pred::ByTag(s) => PredV::ByTag(s@),
        Pred::ByClass(s) => PredV::ByClass(s@),
        Pred::ByAttr(k, v) => PredV::ByAttr(k@, v@),
        Pred::HasDescendant(o, i) => PredV::HasDescendant(
            Box::new(pred_view(*o)),
            Box::new(pred_view(*i)),
        ),
    }
}

/// The code point of `c` with an ASCII capital letter folded to lower case.
pub open spec fn lower_code(c: char) -> int {
    if 65 <= c as u32 && c as u32 <= 90 {
        c as u32 + 32
    } else {
        c as u32 as int
    }
}

/// Case-insensitive equality of two tag names (ASCII case folding).
pub open spec fn tag_imatch(a: Seq<char>, b: Seq<char>) -> bool {
    a.len() == b.len() && forall|i: int| 0 <= i < a.len() ==> lower_code(a[i]) == lower_code(b[i])
}

/// The value of the first attribute named `key`, if any.
pub open spec fn attr_value(attrs: Seq<Attr>, key: Seq<char>) -> Option<Seq<char>>
    decreases attrs.len(),
{
    if attrs.len() == 0 {
        None
    } else if attrs[0].key@ == key {
        Some(attrs[0].value@)
    } else {
        attr_value(attrs.drop_first(), key)
    }
}

/// Whether `name` can stand as one space-separated token: non-empty and free
/// of whitespace.
pub open spec fn is_token(name: Seq<char>) -> bool {
    name.len() > 0 && forall|i: int| 0 <= i < name.len() ==> !is_ws(name[i])
}

/// `name` occurs in `val` at position `i`, delimited by whitespace or by the
/// ends of `val`.
pub open spec fn token_at(val: Seq<char>, name: Seq<char>, i: int) -> bool {
    &&& 0 <= i
    &&& i + name.len() <= val.len()
    &&& val.subrange(i, i + name.len()) == name
    &&& (i == 0 || is_ws(val[i - 1]))
    &&& (i + name.len() == val.len() || is_ws(val[i + name.len()]))
}

/// `name` is one of the space-separated tokens of the class value `val`.
pub open spec fn has_class_token(val: Seq<char>, name: Seq<char>) -> bool {
    is_token(name) && exists|i: int| token_at(val, name, i)
}

/// Whether predicate `p` matches the node `n`.
pub open spec fn pred_matches(p: PredV, n: DomNode) -> bool
    decreases p,
{
    match p {
        PredV::ByTag(name) => match n {
            DomNode::Elem { tag, .. } => tag_imatch(tag@, name),
            _ => false,
        },
        PredV::ByClass(name) => match n {
            DomNode::Elem { attrs, .. } => match attr_value(attrs@, "class"@) {
                Some(v) => has_class_token(v, name),
                None => false,
            },
            _ => false,
        },
        PredV::ByAttr(key, value) => match n {
            DomNode::Elem { attrs, .. } => attr_value(attrs@, key) == Some(value),
            _ => false,
        },
        PredV::HasDescendant(outer, inner) => pred_matches(*outer, n) && exists|d: DomNode|
            #[trigger] desc(n).contains(d) && pred_matches(*inner, d),
    }
}

/// The nodes of `s` that match `p`, keeping document order.
pub open spec fn matches_filter(s: Seq<DomNode>, p: PredV) -> Seq<DomNode> {
    s.filter(|d: DomNode| pred_matches(p, d))
}

/// All strict descendants of `n` matching `p`, in document order.
pub open spec fn all_matches(n: DomNode, p: PredV) -> Seq<DomNode> {
    matches_filter(desc(n), p)
}

/// The first strict descendant of `n` matching `p`, if any.
pub open spec fn first_match(n: DomNode, p: PredV) -> Option<DomNode> {
    if all_matches(n, p).len() == 0 {
        None
    } else {
        Some(all_matches(n, p)[0])
    }
}

/// The descendants contributed by the siblings `s`, given whether an
/// ancestor matching `outer` already stands above them: each node matching
/// `inner` below such an ancestor, in document order.
pub open spec fn under_list(s: Seq<DomNode>, outer: PredV, inner: PredV, under: bool) -> Seq<
    DomNode,
>
    decreases s,
{
    if s.len() == 0 {
        Seq::empty()
    } else {
        (if under && pred_matches(inner, s[0]) {
            seq![s[0]]
        } else {
            Seq::empty()
        }) + under_node(s[0], outer, inner, under || pred_matches(outer, s[0])) + under_list(
            s.drop_first(),
            outer,
            inner,
            under,
        )
    }
}

pub open spec fn under_node(n: DomNode, outer: PredV, inner: PredV, under: bool) -> Seq<DomNode>
    decreases n,
{
    match n {
        DomNode::Text(_) => Seq::empty(),
        DomNode::Elem { children, .. } => under_list(children@, outer, inner, under),
    }
}

/// The strict descendants of `n` that match `inner` and stand below some
/// strict descendant of `n` matching `outer`, in document order. The outer
/// ancestor is deliberately sought inside the searched subtree only: an
/// `outer` match at `n` itself, or above it, does not count, so the nested
/// constraint reads wholly within the node it is asked of.
pub open spec fn under_matches(n: DomNode, outer: PredV, inner: PredV) -> Seq<DomNode> {
    under_node(n, outer, inner, false)
}

/// The values behind a sequence of borrowed nodes.
pub open spec fn derefs(s: Seq<&DomNode>) -> Seq<DomNode> {
    s.map_values(|x: &DomNode| *x)
}

proof fn lemma_derefs_add(a: Seq<&DomNode>, b: Seq<&DomNode>)
    ensures
        derefs(a + b) == derefs(a) + derefs(b),
{
    assert(derefs(a + b) =~= derefs(a) + derefs(b));
}

proof fn lemma_matches_filter_add(a: Seq<DomNode>, b: Seq<DomNode>, p: PredV)
    ensures
        matches_filter(a + b, p) == matches_filter(a, p) + matches_filter(b, p),
{
    Seq::filter_distributes_over_add(a, b, |d: DomNode| pred_matches(p, d));
}

proof fn lemma_matches_filter_single(x: DomNode, p: PredV)
    ensures
        matches_filter(seq![x], p) == if pred_matches(p, x) {
            seq![x]
        } else {
            Seq::<DomNode>::empty()
        },
{
    reveal_with_fuel(Seq::filter, 2);
    let s = seq![x];
    assert(s.drop_last() =~= Seq::<DomNode>::empty());
    assert(s.last() == x);
    if pred_matches(p, x) {
        assert(matches_filter(s, p) =~= seq![x]);
    } else {
        assert(matches_filter(s, p) =~= Seq::<DomNode>::empty());
    }
}

fn lower_code_x(c: char) -> (r: u32)
    ensures
        r == lower_code(c),
{
    let u = c as u32;
    if 65 <= u && u <= 90 {
        u + 32
    } else {
        u
    }
}

fn tag_eq_ci(a: &str, b: &str) -> (r: bool)
    ensures
        r == tag_imatch(a@, b@),
{
    let na = a.unicode_len();
    let nb = b.unicode_len();
    if na != nb {
        return false;
    }
    let mut i: usize = 0;
    while i < na
        invariant
            na == a@.len(),
            na == b@.len(),
            i <= na,
            forall|j: int| 0 <= j < i ==> lower_code(a@[j]) == lower_code(b@[j]),
        decreases na - i,
    {
        if lower_code_x(a.get_char(i)) != lower_code_x(b.get_char(i)) {
            return false;
        }
        i += 1;
    }
    true
}

fn attr_lookup_from<'a>(attrs: &'a Vec<Attr>, key: &String, j: usize) -> (r: Option<&'a String>)
    requires
        j <= attrs.len(),
    ensures
        match r {
            Some(v) => attr_value(attrs@.skip(j as int), key@) == Some(v@),
            None => attr_value(attrs@.skip(j as int), key@) is None,
        },
    decreases attrs.len() - j,
{
    let ghost tail = attrs@.skip(j as int);
    if j == attrs.len() {
        proof {
            assert(tail =~= Seq::<Attr>::empty());
        }
        None
    } else {
        proof {
            assert(tail[0] == attrs@[j as int]);
            assert(tail.drop_first() =~= attrs@.skip(j as int + 1));
        }
        if attrs[j].key == *key {
            Some(&attrs[j].value)
        } else {
            attr_lookup_from(attrs, key, j + 1)
        }
    }
}

fn attr_lookup<'a>(attrs: &'a Vec<Attr>, key: &String) -> (r: Option<&'a String>)
    ensures
        match r {
            Some(v) => attr_value(attrs@, key@) == Some(v@),
            None => attr_value(attrs@, key@) is None,
        },
{
    let r = attr_lookup_from(attrs, key, 0);
    proof {
        assert(attrs@.skip(0) =~= attrs@);
    }
    r
}

fn chars_eq_at(val: &str, name: &str, i: usize) -> (r: bool)
    requires
        i + name@.len() <= val@.len(),
        val@.len() <= usize::MAX,
    ensures
        r == (val@.subrange(i as int, i + name@.len()) == name@),
{
    let n = name.unicode_len();
    let mut k: usize = 0;
    while k < n
        invariant
            n == name@.len(),
            i + n <= val@.len(),
            val@.len() <= usize::MAX,
            k <= n,
            forall|j: int| 0 <= j < k ==> val@[i + j] == name@[j],
        decreases n - k,
    {
        if val.get_char(i + k) != name.get_char(k) {
            proof {
                assert(val@.subrange(i as int, i + name@.len())[k as int] != name@[k as int]);
            }
            return false;
        }
        k += 1;
    }
    proof {
        assert(val@.subrange(i as int, i + name@.len()) =~= name@);
    }
    true
}

fn is_token_x(name: &str) -> (r: bool)
    ensures
        r == is_token(name@),
{
    let n = name.unicode_len();
    if n == 0 {
        return false;
    }
    let mut i: usize = 0;
    while i < n
        invariant
            n == name@.len(),
            i <= n,
            forall|j: int| 0 <= j < i ==> !is_ws(name@[j]),
        decreases n - i,
    {
        if crate::text::is_ws_char(name.get_char(i)) {
            return false;
        }
        i += 1;
    }
    true
}

/// Decides whether `name` is one of the space-separated tokens of the class
/// value `val`.
fn has_token(val: &str, name: &str) -> (r: bool)
    ensures
        r == has_class_token(val@, name@),
{
    if !is_token_x(name) {
        return false;
    }
    let nv = val.unicode_len();
    let nn = name.unicode_len();
    if nn > nv {
        proof {
            assert(forall|i: int| !token_at(val@, name@, i));
        }
        return false;
    }
    let mut i: usize = 0;
    proof {
        assert(nn >= 1);
    }
    while i <= nv - nn
        invariant
            nv == val@.len(),
            nn == name@.len(),
            is_token(name@),
            1 <= nn <= nv,
            i <= nv - nn + 1,
            forall|j: int| 0 <= j < i ==> !token_at(val@, name@, j),
        decreases nv - nn - i + 1,
    {
        let start_ok = i == 0 || crate::text::is_ws_char(val.get_char(i - 1));
        let end_ok = i + nn == nv || crate::text::is_ws_char(val.get_char(i + nn));
        if start_ok && end_ok && chars_eq_at(val, name, i) {
            proof {
                assert(token_at(val@, name@, i as int));
                assert(has_class_token(val@, name@));
            }
            return true;
        }
        proof {
            assert(!token_at(val@, name@, i as int));
        }
        i += 1;
    }
    proof {
        assert(forall|j: int| j > nv - nn ==> !token_at(val@, name@, j));
    }
    false
}

/// Decides whether `p` matches `n`.
pub fn matches(p: &Pred, n: &DomNode) -> (b: bool)
    ensures
        b == pred_matches(pred_view(*p), *n),
    decreases *n, *p, 0int,
{
    match p {
        Pred::ByTag(name) => match n {
            DomNode::Elem { tag, .. } => tag_eq_ci(tag.as_str(), name.as_str()),
            _ => false,
        },
        Pred::ByClass(name) => match n {
            DomNode::Elem { attrs, .. } => {
                let key = "class".to_owned();
                match attr_lookup(attrs, &key) {
                    Some(v) => has_token(v.as_str(), name.as_str()),
                    None => false,
                }
            },
            _ => false,
        },
        Pred::ByAttr(key, value) => match n {
            DomNode::Elem { attrs, .. } => match attr_lookup(attrs, key) {
                Some(v) => v.eq(value),
                None => false,
            },
            _ => false,
        },
        Pred::HasDescendant(outer, inner) => {
            if !matches(&**outer, n) {
                return false;
            }
            let hits = find_all(n, &**inner);
            let ghost iv = pred_view(**inner);
            let ghost cl = |d: DomNode| pred_matches(iv, d);
            if hits.len() > 0 {
                proof {
                    desc(*n).lemma_filter_pred(cl, 0);
                    desc(*n).lemma_filter_contains_rev(cl, all_matches(*n, iv)[0]);
                    assert(all_matches(*n, iv).contains(all_matches(*n, iv)[0]));
                }
                true
            } else {
                proof {
                    assert forall|d: DomNode|
                        #[trigger] desc(*n).contains(d) && pred_matches(iv, d) implies false by {
                        let j = choose|j: int| 0 <= j < desc(*n).len() && desc(*n)[j] == d;
                        desc(*n).lemma_filter_contains(cl, j);
                    }
                }
                false
            }
        },
    }
}

/// Collects all strict descendants of `n` that match `p`, in document order.
pub fn find_all<'a>(n: &'a DomNode, p: &Pred) -> (r: Vec<&'a DomNode>)
    ensures
        derefs(r@) == all_matches(*n, pred_view(*p)),
    decreases *n, *p, 1int,
{
    match n {
        DomNode::Text(_) => {
            let r: Vec<&'a DomNode> = Vec::new();
            proof {
                reveal(Seq::filter);
                assert(derefs(r@) =~= all_matches(*n, pred_view(*p)));
            }
            r
        },
        DomNode::Elem { children, .. } => {
            let r = find_all_from(children, p, 0);
            proof {
                assert(children@.skip(0) =~= children@);
            }
            r
        },
    }
}

fn find_all_from<'a>(cs: &'a Vec<DomNode>, p: &Pred, j: usize) -> (r: Vec<&'a DomNode>)
    requires
        j <= cs.len(),
    ensures
        derefs(r@) == matches_filter(desc_list(cs@.skip(j as int)), pred_view(*p)),
    decreases *cs, *p, cs.len() - j + 2,
{
    let ghost pv = pred_view(*p);
    let ghost tail = cs@.skip(j as int);
    if j == cs.len() {
        let r: Vec<&'a DomNode> = Vec::new();
        proof {
            reveal(Seq::filter);
            assert(tail =~= Seq::<DomNode>::empty());
            assert(derefs(r@) =~= matches_filter(desc_list(tail), pv));
        }
        r
    } else {
        let c = &cs[j];
        let mut r: Vec<&'a DomNode> = Vec::new();
        if matches(p, c) {
            r.push(c);
        }
        let ghost head = r@;
        let mut sub = find_all(c, p);
        let ghost subv = sub@;
        r.append(&mut sub);
        let mut rest = find_all_from(cs, p, j + 1);
        let ghost restv = rest@;
        r.append(&mut rest);
        proof {
            assert(tail[0] == cs@[j as int]);
            assert(tail.drop_first() =~= cs@.skip(j as int + 1));
            let one = seq![cs@[j as int]];
            assert(desc_list(tail) == one + desc(cs@[j as int]) + desc_list(
                cs@.skip(j as int + 1),
            ));
            lemma_matches_filter_add(one + desc(cs@[j as int]), desc_list(cs@.skip(j as int + 1)), pv);
            lemma_matches_filter_add(one, desc(cs@[j as int]), pv);
            lemma_matches_filter_single(cs@[j as int], pv);
            lemma_derefs_add(head + subv, restv);
            lemma_derefs_add(head, subv);
            assert(derefs(head) =~= matches_filter(one, pv));
            assert(r@ == head + subv + restv);
        }
        r
    }
}

/// The first strict descendant of `n` matching `p`, in document order.
pub fn find_first<'a>(n: &'a DomNode, p: &Pred) -> (r: Option<&'a DomNode>)
    ensures
        match r {
            Some(d) => first_match(*n, pred_view(*p)) == Some(*d),
            None => first_match(*n, pred_view(*p)) is None,
        },
{
    let hits = find_all(n, p);
    if hits.len() == 0 {
        None
    } else {
        let d = hits[0];
        proof {
            assert(derefs(hits@)[0] == *hits@[0]);
        }
        Some(d)
    }
}

/// Collects the strict descendants of `n` matching `inner` that stand below
/// a strict descendant of `n` matching `outer`, in document order.
pub fn find_under<'a>(n: &'a DomNode, outer: &Pred, inner: &Pred) -> (r: Vec<&'a DomNode>)
    ensures
        derefs(r@) == under_matches(*n, pred_view(*outer), pred_view(*inner)),
{
    find_under_node(n, outer, inner, false)
}

fn find_under_node<'a>(n: &'a DomNode, outer: &Pred, inner: &Pred, under: bool) -> (r: Vec<
    &'a DomNode,
>)
    ensures
        derefs(r@) == under_node(*n, pred_view(*outer), pred_view(*inner), under),
    decreases *n, 0int,
{
    match n {
        DomNode::Text(_) => {
            let r: Vec<&'a DomNode> = Vec::new();
            proof {
                assert(derefs(r@) =~= under_node(*n, pred_view(*outer), pred_view(*inner), under));
            }
            r
        },
        DomNode::Elem { children, .. } => {
            let r = find_under_from(children, outer, inner, under, 0);
            proof {
                assert(children@.skip(0) =~= children@);
            }
            r
        },
    }
}

fn find_under_from<'a>(
    cs: &'a Vec<DomNode>,
    outer: &Pred,
    inner: &Pred,
    under: bool,
    j: usize,
) -> (r: Vec<&'a DomNode>)
    requires
        j <= cs.len(),
    ensures
        derefs(r@) == under_list(cs@.skip(j as int), pred_view(*outer), pred_view(*inner), under),
    decreases *cs, cs.len() - j + 1,
{
    let ghost ov = pred_view(*outer);
    let ghost iv = pred_view(*inner);
    let ghost tail = cs@.skip(j as int);
    if j == cs.len() {
        let r: Vec<&'a DomNode> = Vec::new();
        proof {
            assert(tail =~= Seq::<DomNode>::empty());
            assert(derefs(r@) =~= under_list(tail, ov, iv, under));
        }
        r
    } else {
        let c = &cs[j];
        let mut r: Vec<&'a DomNode> = Vec::new();
        if under && matches(inner, c) {
            r.push(c);
        }
        let ghost head = r@;
        let under2 = under || matches(outer, c);
        let mut sub = find_under_node(c, outer, inner, under2);
        let ghost subv = sub@;
        r.append(&mut sub);
        let mut rest = find_under_from(cs, outer, inner, under, j + 1);
        let ghost restv = rest@;
        r.append(&mut rest);
        proof {
            assert(tail[0] == cs@[j as int]);
            assert(tail.drop_first() =~= cs@.skip(j as int + 1));
            lemma_derefs_add(head + subv, restv);
            lemma_derefs_add(head, subv);
            assert(derefs(head) =~= if under && pred_matches(iv, tail[0]) {
                seq![tail[0]]
            } else {
                Seq::<DomNode>::empty()
            });
            assert(r@ == head + subv + restv);
        }
        r
    }
}

} // verus!
