//! The extraction pipeline: locate the content region of a parsed page and
//! pull out the keyword, the phonetic transcriptions, the translations and
//! the example sentences, with defined fallbacks where a part is absent.

use vstd::prelude::*;
use vstd::string::StringExecFns;

use crate::dom::{flat_text, node_text, DomNode};
use crate::query::{
    derefs, find_first, find_under, first_match, pred_view, under_matches, Pred, PredV,
};
use crate::text::{collapse_spec, collapse_ws, trim_spec, trim_str};

verus! {

/// Why a lookup produced no record: the page has no content region at all,
/// or the region lacks a part that a well-formed page always carries (a
/// keyword node whose text trims to something, or the paragraph inside an
/// example row).
#[derive(Clone, Copy, PartialEq, Eq, Structural, Debug)]
pub enum ExtractError {
    NotFound,
    MalformedPage,
}

/// The record of one successful lookup: the headword, its phonetic
/// transcriptions (whitespace collapsed), its translations and its example
/// sentences (both trimmed). The three sequences may be empty, never absent.
#[derive(Debug)]
pub struct Word {
    pub keyword: String,
    pub phonetics: Vec<String>,
    pub translations: Vec<String>,
    pub sentences: Vec<String>,
}

/// The mathematical value of a record.
pub struct WordView {
    pub keyword: Seq<char>,
    pub phonetics: Seq<Seq<char>>,
    pub translations: Seq<Seq<char>>,
    pub sentences: Seq<Seq<char>>,
}

impl View for Word {
    type V = WordView;

    open spec fn view(&self) -> WordView {
        WordView {
            keyword: self.keyword@,
            phonetics: self.phonetics.deep_view(),
            translations: self.translations.deep_view(),
            sentences: self.sentences.deep_view(),
        }
    }
}

pub open spec fn region_pv() -> PredV {
    PredV::ByClass("results-content"@)
}

pub open spec fn keyword_pv() -> PredV {
    PredV::ByClass("keyword"@)
}

pub open spec fn baav_pv() -> PredV {
    PredV::ByClass("baav"@)
}

pub open spec fn pronounce_pv() -> PredV {
    PredV::ByClass("pronounce"@)
}

pub open spec fn trans_container_pv() -> PredV {
    PredV::ByClass("trans-container"@)
}

pub open spec fn ul_pv() -> PredV {
    PredV::ByTag("ul"@)
}

pub open spec fn li_pv() -> PredV {
    PredV::ByTag("li"@)
}

pub open spec fn tag_p_pv() -> PredV {
    PredV::ByTag("p"@)
}

pub open spec fn toggle_pv() -> PredV {
    PredV::ByAttr("id"@, "examplesToggle"@)
}

pub open spec fn authority_pv() -> PredV {
    PredV::ByAttr("id"@, "authority"@)
}

/// The collapsed flattened text of a pronunciation node.
pub open spec fn phonetic_of(d: DomNode) -> Seq<char> {
    collapse_spec(flat_text(d))
}

/// The trimmed flattened text of a definition line.
pub open spec fn line_of(d: DomNode) -> Seq<char> {
    trim_spec(flat_text(d))
}

/// The sentence drawn from one example row: the trimmed flattened text of
/// its first `p` descendant.
pub open spec fn sentence_of(li: DomNode) -> Seq<char> {
    match first_match(li, tag_p_pv()) {
        Some(pn) => trim_spec(flat_text(pn)),
        None => Seq::empty(),
    }
}

pub open spec fn phonetics_of_nodes(s: Seq<DomNode>) -> Seq<Seq<char>> {
    s.map_values(|d: DomNode| phonetic_of(d))
}

pub open spec fn lines_of_nodes(s: Seq<DomNode>) -> Seq<Seq<char>> {
    s.map_values(|d: DomNode| line_of(d))
}

pub open spec fn sentences_of_nodes(s: Seq<DomNode>) -> Seq<Seq<char>> {
    s.map_values(|li: DomNode| sentence_of(li))
}

/// The views of a sequence of strings.
pub open spec fn views_of(v: Seq<String>) -> Seq<Seq<char>> {
    v.map_values(|s: String| s@)
}

/// The phonetic transcriptions of the content region: the flattened text of
/// every node of class `pronounce` below a node of class `baav`, whitespace
/// collapsed, in document order; empty where no such node exists.
pub open spec fn phonetics_spec(region: DomNode) -> Seq<Seq<char>> {
    phonetics_of_nodes(under_matches(region, baav_pv(), pronounce_pv()))
}

/// The translations of the content region: the trimmed flattened text of
/// every `li` element below a `ul` element inside the first node of class
/// `trans-container`, in document order; empty where that node is absent.
pub open spec fn translations_spec(region: DomNode) -> Seq<Seq<char>> {
    match first_match(region, trans_container_pv()) {
        None => Seq::empty(),
        Some(tc) => lines_of_nodes(under_matches(tc, ul_pv(), li_pv())),
    }
}

/// The example sentences of the content region, or `None` where an example
/// row lacks its `p` node (a malformed page). Without the `examplesToggle`
/// marker, or without the `authority` node, the sequence is empty.
pub open spec fn sentences_spec(region: DomNode) -> Option<Seq<Seq<char>>> {
    if first_match(region, toggle_pv()) is None {
        Some(Seq::empty())
    } else {
        match first_match(region, authority_pv()) {
            None => Some(Seq::empty()),
            Some(auth) => {
                let lis = under_matches(auth, ul_pv(), li_pv());
                if forall|k: int|
                    0 <= k < lis.len() ==> (#[trigger] first_match(lis[k], tag_p_pv())) is Some {
                    Some(sentences_of_nodes(lis))
                } else {
                    None
                }
            },
        }
    }
}

/// What extraction yields on a parsed page: `NotFound` where no content
/// region exists; `MalformedPage` where the region lacks its keyword node,
/// the keyword trims to nothing, or an example row lacks its paragraph;
/// otherwise the full record. A produced record's keyword is never empty.
pub open spec fn extract_spec(doc: DomNode) -> Result<WordView, ExtractError> {
    match first_match(doc, region_pv()) {
        None => Err(ExtractError::NotFound),
        Some(region) => match first_match(region, keyword_pv()) {
            None => Err(ExtractError::MalformedPage),
            Some(kw) => if trim_spec(flat_text(kw)).len() == 0 {
                Err(ExtractError::MalformedPage)
            } else {
                match sentences_spec(region) {
                    None => Err(ExtractError::MalformedPage),
                    Some(sents) => Ok(
                        WordView {
                            keyword: trim_spec(flat_text(kw)),
                            phonetics: phonetics_spec(region),
                            translations: translations_spec(region),
                            sentences: sents,
                        },
                    ),
                }
            },
        },
    }
}

/// The mathematical value of an extraction result.
pub open spec fn res_view(r: Result<Word, ExtractError>) -> Result<WordView, ExtractError> {
    match r {
        Ok(w) => Ok(w@),
        Err(e) => Err(e),
    }
}

proof fn lemma_views_deep(v: Vec<String>)
    ensures
        v.deep_view() == views_of(v@),
{
    assert forall|j: int| 0 <= j < v@.len() implies v.deep_view()[j] == views_of(v@)[j] by {
        assert(v.deep_view()[j] == v@[j].deep_view());
        assert(views_of(v@)[j] == v@[j]@);
    }
    assert(v.deep_view() =~= views_of(v@));
}

proof fn lemma_phonetics_snoc(s: Seq<DomNode>, prev: Seq<String>, c: String, d: DomNode)
    requires
        views_of(prev) == phonetics_of_nodes(s),
        c@ == phonetic_of(d),
    ensures
        views_of(prev.push(c)) == phonetics_of_nodes(s.push(d)),
{
    assert(views_of(prev).len() == prev.len());
    assert(phonetics_of_nodes(s).len() == s.len());
    assert(prev.len() == s.len());
    assert forall|j: int|
        0 <= j < s.len() + 1 implies views_of(prev.push(c))[j] == phonetics_of_nodes(s.push(d))[j] by {
        assert(views_of(prev.push(c))[j] == prev.push(c)[j]@);
        assert(phonetics_of_nodes(s.push(d))[j] == phonetic_of(s.push(d)[j]));
        if j < s.len() {
            assert(views_of(prev)[j] == prev[j]@);
            assert(phonetics_of_nodes(s)[j] == phonetic_of(s[j]));
        }
    }
    assert(views_of(prev.push(c)) =~= phonetics_of_nodes(s.push(d)));
}

proof fn lemma_lines_snoc(s: Seq<DomNode>, prev: Seq<String>, c: String, d: DomNode)
    requires
        views_of(prev) == lines_of_nodes(s),
        c@ == line_of(d),
    ensures
        views_of(prev.push(c)) == lines_of_nodes(s.push(d)),
{
    assert(views_of(prev).len() == prev.len());
    assert(lines_of_nodes(s).len() == s.len());
    assert(prev.len() == s.len());
    assert forall|j: int|
        0 <= j < s.len() + 1 implies views_of(prev.push(c))[j] == lines_of_nodes(s.push(d))[j] by {
        assert(views_of(prev.push(c))[j] == prev.push(c)[j]@);
        assert(lines_of_nodes(s.push(d))[j] == line_of(s.push(d)[j]));
        if j < s.len() {
            assert(views_of(prev)[j] == prev[j]@);
            assert(lines_of_nodes(s)[j] == line_of(s[j]));
        }
    }
    assert(views_of(prev.push(c)) =~= lines_of_nodes(s.push(d)));
}

proof fn lemma_sentences_snoc(s: Seq<DomNode>, prev: Seq<String>, c: String, d: DomNode)
    requires
        views_of(prev) == sentences_of_nodes(s),
        c@ == sentence_of(d),
    ensures
        views_of(prev.push(c)) == sentences_of_nodes(s.push(d)),
{
    assert(views_of(prev).len() == prev.len());
    assert(sentences_of_nodes(s).len() == s.len());
    assert(prev.len() == s.len());
    assert forall|j: int|
        0 <= j < s.len() + 1 implies views_of(prev.push(c))[j] == sentences_of_nodes(s.push(d))[j] by {
        assert(views_of(prev.push(c))[j] == prev.push(c)[j]@);
        assert(sentences_of_nodes(s.push(d))[j] == sentence_of(s.push(d)[j]));
        if j < s.len() {
            assert(views_of(prev)[j] == prev[j]@);
            assert(sentences_of_nodes(s)[j] == sentence_of(s[j]));
        }
    }
    assert(views_of(prev.push(c)) =~= sentences_of_nodes(s.push(d)));
}

proof fn lemma_empty_views(s: Seq<String>)
    requires
        s.len() == 0,
    ensures
        views_of(s) == Seq::<Seq<char>>::empty(),
{
    assert(views_of(s) =~= Seq::<Seq<char>>::empty());
}

fn class_pred(name: &str) -> (p: Pred)
    ensures
        pred_view(p) == PredV::ByClass(name@),
{
    Pred::ByClass(name.to_owned())
}

fn tag_pred(name: &str) -> (p: Pred)
    ensures
        pred_view(p) == PredV::ByTag(name@),
{
    Pred::ByTag(name.to_owned())
}

fn attr_pred(key: &str, value: &str) -> (p: Pred)
    ensures
        pred_view(p) == PredV::ByAttr(key@, value@),
{
    Pred::ByAttr(key.to_owned(), value.to_owned())
}

/// Collects the phonetic transcriptions of the content region.
pub fn get_phonetics(region: &DomNode) -> (r: Vec<String>)
    ensures
        r.deep_view() == phonetics_spec(*region),
{
    let outer = class_pred("baav");
    let inner = class_pred("pronounce");
    let nodes = find_under(region, &outer, &inner);
    let ghost hits = under_matches(*region, baav_pv(), pronounce_pv());
    let mut r: Vec<String> = Vec::new();
    let mut i: usize = 0;
    proof {
        lemma_empty_views(r@);
        assert(hits.take(0) =~= Seq::<DomNode>::empty());
        assert(phonetics_of_nodes(hits.take(0)) =~= Seq::<Seq<char>>::empty());
    }
    while i < nodes.len()
        invariant
            i <= nodes.len(),
            derefs(nodes@) == hits,
            views_of(r@) == phonetics_of_nodes(hits.take(i as int)),
        decreases nodes.len() - i,
    {
        proof {
            assert(derefs(nodes@)[i as int] == *nodes@[i as int]);
        }
        let t = node_text(nodes[i]);
        let c = collapse_ws(t.as_str());
        let ghost prev = r@;
        r.push(c);
        proof {
            lemma_phonetics_snoc(hits.take(i as int), prev, c, hits[i as int]);
            assert(hits.take(i as int).push(hits[i as int]) =~= hits.take(i as int + 1));
        }
        i += 1;
    }
    proof {
        assert(hits.take(nodes@.len() as int) =~= hits);
        lemma_views_deep(r);
    }
    r
}

/// Collects the translations of the content region.
pub fn get_translations(region: &DomNode) -> (r: Vec<String>)
    ensures
        r.deep_view() == translations_spec(*region),
{
    let tcp = class_pred("trans-container");
    match find_first(region, &tcp) {
        None => {
            let r: Vec<String> = Vec::new();
            proof {
                lemma_views_deep(r);
                lemma_empty_views(r@);
            }
            r
        },
        Some(tc) => {
            let outer = tag_pred("ul");
            let inner = tag_pred("li");
            let nodes = find_under(tc, &outer, &inner);
            let ghost hits = under_matches(*tc, ul_pv(), li_pv());
            let mut r: Vec<String> = Vec::new();
            let mut i: usize = 0;
            proof {
                lemma_empty_views(r@);
                assert(hits.take(0) =~= Seq::<DomNode>::empty());
                assert(lines_of_nodes(hits.take(0)) =~= Seq::<Seq<char>>::empty());
            }
            while i < nodes.len()
                invariant
                    i <= nodes.len(),
                    derefs(nodes@) == hits,
                    views_of(r@) == lines_of_nodes(hits.take(i as int)),
                decreases nodes.len() - i,
            {
                proof {
                    assert(derefs(nodes@)[i as int] == *nodes@[i as int]);
                }
                let t = node_text(nodes[i]);
                let c = trim_str(t.as_str());
                let ghost prev = r@;
                r.push(c);
                proof {
                    lemma_lines_snoc(hits.take(i as int), prev, c, hits[i as int]);
                    assert(hits.take(i as int).push(hits[i as int]) =~= hits.take(i as int + 1));
                }
                i += 1;
            }
            proof {
                assert(hits.take(nodes@.len() as int) =~= hits);
                lemma_views_deep(r);
            }
            r
        },
    }
}

/// Collects the example sentences of the content region, or `None` where an
/// example row lacks its `p` node.
pub fn get_sentences(region: &DomNode) -> (r: Option<Vec<String>>)
    ensures
        match r {
            Some(v) => sentences_spec(*region) == Some(v.deep_view()),
            None => sentences_spec(*region) is None,
        },
{
    let togglep = attr_pred("id", "examplesToggle");
    if find_first(region, &togglep).is_none() {
        let v: Vec<String> = Vec::new();
        proof {
            lemma_views_deep(v);
            lemma_empty_views(v@);
        }
        return Some(v);
    }
    let authp = attr_pred("id", "authority");
    match find_first(region, &authp) {
        None => {
            let v: Vec<String> = Vec::new();
            proof {
                lemma_views_deep(v);
                lemma_empty_views(v@);
            }
            Some(v)
        },
        Some(auth) => {
            let outer = tag_pred("ul");
            let inner = tag_pred("li");
            let nodes = find_under(auth, &outer, &inner);
            let ghost lis = under_matches(*auth, ul_pv(), li_pv());
            let pp = tag_pred("p");
            let mut out: Vec<String> = Vec::new();
            let mut i: usize = 0;
            proof {
                lemma_empty_views(out@);
                assert(lis.take(0) =~= Seq::<DomNode>::empty());
                assert(sentences_of_nodes(lis.take(0)) =~= Seq::<Seq<char>>::empty());
            }
            while i < nodes.len()
                invariant
                    i <= nodes.len(),
                    derefs(nodes@) == lis,
                    pred_view(pp) == tag_p_pv(),
                    first_match(*region, toggle_pv()) is Some,
                    first_match(*region, authority_pv()) == Some(*auth),
                    lis == under_matches(*auth, ul_pv(), li_pv()),
                    forall|k: int|
                        0 <= k < i ==> (#[trigger] first_match(lis[k], tag_p_pv())) is Some,
                    views_of(out@) == sentences_of_nodes(lis.take(i as int)),
                decreases nodes.len() - i,
            {
                proof {
                    assert(derefs(nodes@)[i as int] == *nodes@[i as int]);
                }
                match find_first(nodes[i], &pp) {
                    None => {
                        proof {
                            assert(first_match(lis[i as int], tag_p_pv()) is None);
                        }
                        return None;
                    },
                    Some(pn) => {
                        let t = node_text(pn);
                        let c = trim_str(t.as_str());
                        let ghost prev = out@;
                        out.push(c);
                        proof {
                            assert(sentence_of(lis[i as int]) == trim_spec(flat_text(*pn)));
                            lemma_sentences_snoc(lis.take(i as int), prev, c, lis[i as int]);
                            assert(lis.take(i as int).push(lis[i as int]) =~= lis.take(
                                i as int + 1,
                            ));
                        }
                    },
                }
                i += 1;
            }
            proof {
                assert(lis.take(nodes@.len() as int) =~= lis);
                lemma_views_deep(out);
            }
            Some(out)
        },
    }
}

/// Extracts the word record of a parsed page: the keyword (required and
/// never empty), then phonetics, translations and sentences, each
/// independently allowed to be empty. Fails with `NotFound` where the page
/// has no content region, and with `MalformedPage` where the region is
/// present but structurally broken.
pub fn extract(doc: &DomNode) -> (r: Result<Word, ExtractError>)
    ensures
        res_view(r) == extract_spec(*doc),
        r matches Ok(w) ==> w@.keyword.len() > 0,
{
    let regionp = class_pred("results-content");
    let region = match find_first(doc, &regionp) {
        None => {
            return Err(ExtractError::NotFound);
        },
        Some(x) => x,
    };
    let kwp = class_pred("keyword");
    let kw = match find_first(region, &kwp) {
        None => {
            return Err(ExtractError::MalformedPage);
        },
        Some(x) => x,
    };
    let t = node_text(kw);
    let keyword = trim_str(t.as_str());
    if keyword.as_str().is_empty() {
        return Err(ExtractError::MalformedPage);
    }
    let phonetics = get_phonetics(region);
    let translations = get_translations(region);
    let sentences = match get_sentences(region) {
        None => {
            return Err(ExtractError::MalformedPage);
        },
        Some(v) => v,
    };
    let w = Word { keyword, phonetics, translations, sentences };
    Ok(w)
}

/// The text of each item in turn, every item followed by `suffix`.
pub open spec fn lines_concat(items: Seq<Seq<char>>, suffix: Seq<char>) -> Seq<char>
    decreases items.len(),
{
    if items.len() == 0 {
        Seq::empty()
    } else {
        items[0] + suffix + lines_concat(items.drop_first(), suffix)
    }
}

/// The rendered text of a record: the keyword line, the phonetics line
/// (each transcription followed by two spaces), one line per translation,
/// the examples heading, and one line per sentence. The heading stands even
/// where no sentence follows it.
pub open spec fn render_spec(w: WordView) -> Seq<char> {
    w.keyword + "\n"@ + lines_concat(w.phonetics, "  "@) + "\n"@ + lines_concat(
        w.translations,
        "\n"@,
    ) + "例句:\n"@ + lines_concat(w.sentences, "\n"@)
}

fn concat_lines_from(items: &Vec<String>, suffix: &str, i: usize) -> (r: String)
    requires
        i <= items.len(),
    ensures
        r@ == lines_concat(views_of(items@).skip(i as int), suffix@),
    decreases items.len() - i,
{
    let ghost vs = views_of(items@);
    proof {
        assert(vs.len() == items@.len());
    }
    if i == items.len() {
        proof {
            assert(vs.skip(i as int) =~= Seq::<Seq<char>>::empty());
        }
        String::new()
    } else {
        let rest = concat_lines_from(items, suffix, i + 1);
        let mut out = items[i].clone();
        out.append(suffix);
        let r = out.concat(rest.as_str());
        proof {
            assert(vs[i as int] == items@[i as int]@);
            assert(vs.skip(i as int)[0] == vs[i as int]);
            assert(vs.skip(i as int).drop_first() =~= vs.skip(i as int + 1));
        }
        r
    }
}

impl Word {
    /// Renders the record as the text that a lookup prints: the fields in
    /// their fixed order, with the fixed examples heading.
    pub fn render(&self) -> (r: String)
        ensures
            r@ == render_spec(self@),
    {
        let mut out = self.keyword.clone();
        out.append("\n");
        let ph = concat_lines_from(&self.phonetics, "  ", 0);
        out.append(ph.as_str());
        out.append("\n");
        let tr = concat_lines_from(&self.translations, "\n", 0);
        out.append(tr.as_str());
        out.append("例句:\n");
        let se = concat_lines_from(&self.sentences, "\n", 0);
        out.append(se.as_str());
        proof {
            lemma_views_deep(self.phonetics);
            lemma_views_deep(self.translations);
            lemma_views_deep(self.sentences);
            assert(views_of(self.phonetics@).skip(0) =~= views_of(self.phonetics@));
            assert(views_of(self.translations@).skip(0) =~= views_of(self.translations@));
            assert(views_of(self.sentences@).skip(0) =~= views_of(self.sentences@));
        }
        out
    }
}

/// Law: on a page whose content region exists, whose region holds a keyword
/// node with non-blank text, and whose example rows are well formed,
/// extraction succeeds, and the record's keyword is the trimmed flattened
/// text of that keyword node.
pub proof fn lemma_keyword_of_page(doc: DomNode)
    requires
        first_match(doc, region_pv()) is Some,
        first_match(first_match(doc, region_pv())->Some_0, keyword_pv()) is Some,
        trim_spec(
            flat_text(first_match(first_match(doc, region_pv())->Some_0, keyword_pv())->Some_0),
        ).len() > 0,
        sentences_spec(first_match(doc, region_pv())->Some_0) is Some,
    ensures
        extract_spec(doc) is Ok,
        extract_spec(doc)->Ok_0.keyword == trim_spec(
            flat_text(first_match(first_match(doc, region_pv())->Some_0, keyword_pv())->Some_0),
        ),
{
}

/// Law: where no node of the document matches the content-region class,
/// extraction yields exactly `NotFound`, never another error kind.
pub proof fn lemma_no_region_not_found(doc: DomNode)
    requires
        forall|d: DomNode| crate::dom::desc(doc).contains(d) ==> !crate::query::pred_matches(
            region_pv(),
            d,
        ),
    ensures
        extract_spec(doc) == Err::<WordView, ExtractError>(ExtractError::NotFound),
{
    let hits = crate::query::all_matches(doc, region_pv());
    if hits.len() > 0 {
        let cl = |d: DomNode| crate::query::pred_matches(region_pv(), d);
        crate::dom::desc(doc).lemma_filter_pred(cl, 0);
        crate::dom::desc(doc).lemma_filter_contains_rev(cl, hits[0]);
        assert(hits.contains(hits[0]));
        assert(false);
    }
}

/// Law: every phonetic transcription of an extracted record is free of
/// whitespace, whatever runs of spaces, tabs or newlines the page held
/// inside its pronunciation text.
pub proof fn lemma_phonetics_whitespace_free(doc: DomNode)
    ensures
        extract_spec(doc) is Ok ==> forall|k: int, i: int|
            0 <= k < extract_spec(doc)->Ok_0.phonetics.len() && 0 <= i < extract_spec(
                doc,
            )->Ok_0.phonetics[k].len() ==> !crate::text::is_ws(
                #[trigger] extract_spec(doc)->Ok_0.phonetics[k][i],
            ),
{
    if extract_spec(doc) is Ok {
        let region = first_match(doc, region_pv())->Some_0;
        let hits = under_matches(region, baav_pv(), pronounce_pv());
        let ph = extract_spec(doc)->Ok_0.phonetics;
        assert forall|k: int, i: int|
            0 <= k < ph.len() && 0 <= i < ph[k].len() implies !crate::text::is_ws(
            #[trigger] ph[k][i],
        ) by {
            assert(ph[k] == phonetic_of(hits[k]));
            crate::text::lemma_collapse_removes_whitespace(flat_text(hits[k]));
        }
    }
}

/// Law: the translations of a record are empty both where the region holds
/// no `trans-container` node and where the first such node holds no `li`
/// below a `ul`: two page shapes, one observable result.
pub proof fn lemma_translations_empty(region: DomNode)
    ensures
        first_match(region, trans_container_pv()) is None ==> translations_spec(region)
            == Seq::<Seq<char>>::empty(),
        (first_match(region, trans_container_pv()) matches Some(tc) && under_matches(
            tc,
            ul_pv(),
            li_pv(),
        ).len() == 0) ==> translations_spec(region) == Seq::<Seq<char>>::empty(),
{
    if first_match(region, trans_container_pv()) is Some {
        let tc = first_match(region, trans_container_pv())->Some_0;
        if under_matches(tc, ul_pv(), li_pv()).len() == 0 {
            assert(lines_of_nodes(under_matches(tc, ul_pv(), li_pv()))
                =~= Seq::<Seq<char>>::empty());
        }
    }
}

/// Law: without the `examplesToggle` marker the sentences of a record are
/// empty, whether or not an `authority` node stands anywhere in the page.
pub proof fn lemma_no_toggle_no_sentences(region: DomNode)
    requires
        first_match(region, toggle_pv()) is None,
    ensures
        sentences_spec(region) == Some(Seq::<Seq<char>>::empty()),
{
}

} // verus!
