//! Writing dictionaries: the formats they can be written in, and the layout of the HTML of a test
//! dictionary.
use vstd::prelude::*;
use crate::models::yomitan::{DetailedDefinition, TermInfoForm};
use crate::seqs::{first_index, lemma_first_index};
use crate::text::{chars_of, concat, decimal, join, join_sep, owned, str_eq, string_in, string_of_chars, usize_to_string, views};

verus! {

/// The formats a dictionary can be written in.
#[derive(Debug, Clone, Copy, PartialEq, Eq, Structural)]
pub enum WriterFormat {
    /// Yomitan, zipped.
    Yomitan,
    /// The intermediate representation, as JSON.
    Ir,
    /// Simple HTML that follows the Yomitan structure.
    Html,
    /// The MDict format.
    Mdict,
    /// The StarDict format.
    Stardict,
    /// The inflections, for debugging (main dictionary only).
    DebugForms,
    /// Simple HTML, without CSS.
    TestHtml,
    /// Yomitan unzipped, without metadata.
    TestYomitan,
    /// Yomitan unzipped and the intermediate representation.
    TestYomitanMain,
    /// Nothing written (for benchmarks).
    Skip,
}

/// The name of a format.
pub open spec fn format_name(f: WriterFormat) -> Seq<char> {
    match f {
        WriterFormat::Yomitan => "yomitan"@,
        WriterFormat::Ir => "ir"@,
        WriterFormat::Html => "html"@,
        WriterFormat::Mdict => "mdict"@,
        WriterFormat::Stardict => "stardict"@,
        WriterFormat::DebugForms => "debug-forms"@,
        WriterFormat::TestHtml => "test-html"@,
        WriterFormat::TestYomitan => "test-yomitan"@,
        WriterFormat::TestYomitanMain => "test-yomitan-main"@,
        WriterFormat::Skip => "skip"@,
    }
}

impl WriterFormat {
    /// The name of the format (see [`format_name`]).
    pub fn name(&self) -> (r: &'static str)
        ensures
            r@ == format_name(*self),
    {
        match self {
            WriterFormat::Yomitan => "yomitan",
            WriterFormat::Ir => "ir",
            WriterFormat::Html => "html",
            WriterFormat::Mdict => "mdict",
            WriterFormat::Stardict => "stardict",
            WriterFormat::DebugForms => "debug-forms",
            WriterFormat::TestHtml => "test-html",
            WriterFormat::TestYomitan => "test-yomitan",
            WriterFormat::TestYomitanMain => "test-yomitan-main",
            WriterFormat::Skip => "skip",
        }
    }
}

impl Default for WriterFormat {
    fn default() -> (r: WriterFormat)
        ensures
            r == WriterFormat::Yomitan,
    {
        WriterFormat::Yomitan
    }
}

/// The text after the last `<` of `s` (all of `s` when it has none).
pub open spec fn after_last_lt(s: Seq<char>) -> Seq<char>
    decreases s.len(),
{
    if s.len() == 0 {
        s
    } else if s.last() == '<' {
        Seq::<char>::empty()
    } else {
        after_last_lt(s.drop_last()).push(s.last())
    }
}

/// Two spaces per level of indentation.
pub open spec fn indentation(n: nat) -> Seq<char> {
    Seq::new(2 * n, |i: int| ' ')
}

/// One character of HTML laid out: the text so far, the indentation, and whether a tag is open.
/// A tag that opens outside a tag goes on a new line, indented; after a tag closes, the
/// indentation goes down after a closing tag (`</..>`) and up after any tag but one that ends
/// with `/` or starts with `!`, judging by the text after the last `<`.
pub open spec fn pretty_step(st: (Seq<char>, nat, bool), ch: char) -> (Seq<char>, nat, bool) {
    let out = st.0;
    let indent = st.1;
    let in_tag = st.2;
    if ch == '<' {
        let o = if !in_tag {
            out.push('\n') + indentation(indent)
        } else {
            out
        };
        (o.push('<'), indent, true)
    } else if ch == '>' {
        let o = out.push('>');
        let last = after_last_lt(o);
        let ind: nat = if last.len() > 0 && last[0] == '/' {
            if indent > 0 {
                (indent - 1) as nat
            } else {
                0
            }
        } else if !(last.len() > 0 && last.last() == '/') && !(last.len() > 0 && last[0] == '!') {
            indent + 1
        } else {
            indent
        };
        (o, ind, false)
    } else {
        (out.push(ch), indent, in_tag)
    }
}

/// The characters laid out one after the other.
pub open spec fn pretty_fold(cs: Seq<char>) -> (Seq<char>, nat, bool)
    decreases cs.len(),
{
    if cs.len() == 0 {
        (Seq::<char>::empty(), 0nat, false)
    } else {
        pretty_step(pretty_fold(cs.drop_last()), cs.last())
    }
}

/// The characters of `cs`, each after its pad.
pub open spec fn woven(cs: Seq<char>, pads: Seq<Seq<char>>) -> Seq<char>
    decreases cs.len(),
{
    if cs.len() == 0 || pads.len() == 0 {
        Seq::<char>::empty()
    } else {
        woven(cs.drop_last(), pads.drop_last()) + pads.last() + seq![cs.last()]
    }
}

/// What laying out inserts before each character: before a `<` that opens a tag outside a tag,
/// a line break and the indentation of that point; before any other character, nothing.
pub open spec fn pretty_pads(cs: Seq<char>) -> Seq<Seq<char>>
    decreases cs.len(),
{
    if cs.len() == 0 {
        Seq::<Seq<char>>::empty()
    } else {
        let st = pretty_fold(cs.drop_last());
        pretty_pads(cs.drop_last()).push(
            if cs.last() == '<' && !st.2 {
                seq!['\n'] + indentation(st.1)
            } else {
                Seq::<char>::empty()
            },
        )
    }
}

/// A pad is nothing, or a line break and some indentation.
pub open spec fn pad_ok(pad: Seq<char>) -> bool {
    pad.len() == 0 || exists|k: nat| pad == seq!['\n'] + indentation(k)
}

/// Laying out HTML only inserts text: the result is the input, each character after its pad,
/// and a pad is empty but before a `<`, where it is a line break and indentation.
pub proof fn lemma_pretty_only_inserts(cs: Seq<char>)
    ensures
        pretty_pads(cs).len() == cs.len(),
        pretty_fold(cs).0 == woven(cs, pretty_pads(cs)),
        forall|i: int| 0 <= i < cs.len() ==> pad_ok(#[trigger] pretty_pads(cs)[i]),
        forall|i: int| 0 <= i < cs.len() && cs[i] != '<' ==> (#[trigger] pretty_pads(cs)[i]).len() == 0,
    decreases cs.len(),
{
    if cs.len() > 0 {
        let prev = cs.drop_last();
        lemma_pretty_only_inserts(prev);
        let st = pretty_fold(prev);
        let pads = pretty_pads(cs);
        let pad = pads.last();
        let ch = cs.last();
        assert(pads.drop_last() =~= pretty_pads(prev));
        assert(woven(cs, pads) == woven(prev, pretty_pads(prev)) + pad + seq![ch]);
        if ch == '<' && !st.2 {
            assert(st.0.push('\n') + indentation(st.1) =~= st.0 + (seq!['\n'] + indentation(st.1)));
            assert(pad_ok(pad));
        }
        assert(pretty_fold(cs).0 =~= woven(cs, pads));
        assert forall|i: int| 0 <= i < cs.len() implies pad_ok(#[trigger] pads[i]) by {
            if i < prev.len() {
                assert(pads[i] == pretty_pads(prev)[i]);
                assert(prev[i] == cs[i]);
            }
        }
        assert forall|i: int| 0 <= i < cs.len() && cs[i] != '<' implies (#[trigger] pads[i]).len() == 0 by {
            if i < prev.len() {
                assert(pads[i] == pretty_pads(prev)[i]);
                assert(prev[i] == cs[i]);
            }
        }
    }
}

proof fn lemma_after_last_lt_at(s: Seq<char>, p: int)
    requires
        0 <= p < s.len(),
        s[p] == '<',
        forall|q: int| p < q < s.len() ==> s[q] != '<',
    ensures
        after_last_lt(s) == s.skip(p + 1),
    decreases s.len(),
{
    if s.last() != '<' {
        lemma_after_last_lt_at(s.drop_last(), p);
        assert(s.drop_last().skip(p + 1).push(s.last()) =~= s.skip(p + 1));
    } else {
        assert(s.skip(p + 1) =~= Seq::<char>::empty());
    }
}

proof fn lemma_after_last_lt_none(s: Seq<char>)
    requires
        forall|q: int| 0 <= q < s.len() ==> s[q] != '<',
    ensures
        after_last_lt(s) == s,
    decreases s.len(),
{
    if s.len() > 0 {
        lemma_after_last_lt_none(s.drop_last());
        assert(s.drop_last().push(s.last()) =~= s);
    }
}

/// Lays out HTML on lines, indented by the nesting of its tags (see [`pretty_fold`]; it only
/// inserts line breaks and indentation before tags, see [`lemma_pretty_only_inserts`]). Meant
/// for reading test output: the whitespace can change how a browser renders it.
pub fn prettify_html(html: &str) -> (r: String)
    ensures
        r@ == pretty_fold(html@).0,
{
    let cs = chars_of(html);
    let mut out: Vec<char> = Vec::new();
    let mut indent: usize = 0;
    let mut in_tag = false;
    let mut lt: Option<usize> = None;
    let mut i: usize = 0;
    assert(cs@.take(0) =~= Seq::<char>::empty());
    while i < cs.len()
        invariant
            cs@ == html@,
            i <= cs@.len(),
            indent <= i,
            pretty_fold(cs@.take(i as int)) == (out@, indent as nat, in_tag),
            match lt {
                Some(p) => p < out@.len() && out@[p as int] == '<' && forall|q: int| p < q < out@.len() ==> out@[q] != '<',
                None => forall|q: int| 0 <= q < out@.len() ==> out@[q] != '<',
            },
        decreases cs@.len() - i,
    {
        let ch = cs[i];
        assert(cs@.take(i + 1).drop_last() =~= cs@.take(i as int));
        assert(cs@.take(i + 1).last() == ch);
        let ghost st = (out@, indent as nat, in_tag);
        if ch == '<' {
            if !in_tag {
                out.push('\n');
                let ghost base = out@;
                let mut k: usize = 0;
                while k < indent
                    invariant
                        k <= indent,
                        out@ == base + indentation(k as nat),
                    decreases indent - k,
                {
                    out.push(' ');
                    out.push(' ');
                    assert(out@ =~= base + indentation((k + 1) as nat));
                    k += 1;
                }
                assert(out@ =~= st.0.push('\n') + indentation(indent as nat));
            }
            out.push('<');
            lt = Some(out.len() - 1);
            in_tag = true;
        } else if ch == '>' {
            out.push('>');
            in_tag = false;
            let n = out.len();
            let start: usize = match lt {
                Some(p) => {
                    proof { lemma_after_last_lt_at(out@, p as int); }
                    p + 1
                },
                None => {
                    proof { lemma_after_last_lt_none(out@); }
                    0
                },
            };
            assert(after_last_lt(out@) == out@.skip(start as int));
            let first = out[start];
            assert(after_last_lt(out@)[0] == first);
            assert(after_last_lt(out@).last() == '>');
            if first == '/' {
                if indent > 0 {
                    indent = indent - 1;
                }
            } else if first != '!' {
                indent = indent + 1;
            }
        } else {
            out.push(ch);
            proof {
                match lt {
                    Some(p) => {
                        assert forall|q: int| p < q < out@.len() implies out@[q] != '<' by {
                            if q < out@.len() - 1 {
                                assert(out@[q] == st.0[q]);
                            }
                        }
                    },
                    None => {
                        assert forall|q: int| 0 <= q < out@.len() implies out@[q] != '<' by {
                            if q < out@.len() - 1 {
                                assert(out@[q] == st.0[q]);
                            }
                        }
                    },
                }
            }
        }
        i += 1;
    }
    assert(cs@.take(cs@.len() as int) =~= cs@);
    string_of_chars(&out)
}

/// The forms of one lemma, for debugging inflections: the lemma, the rules of its forms and the
/// forms, each once, in the order first met.
#[derive(Debug)]
pub struct FormGroup {
    pub from: String,
    pub rules: Vec<String>,
    pub tos: Vec<String>,
}

/// A group of forms as plain values: (lemma, rules, forms).
pub type GroupView = (Seq<char>, Seq<Seq<char>>, Seq<Seq<char>>);

/// The view of a group of forms.
pub open spec fn group_view(g: FormGroup) -> GroupView {
    (g.from@, views(g.rules@), views(g.tos@))
}

/// The views of groups of forms.
pub open spec fn group_views(gs: Seq<FormGroup>) -> Seq<GroupView> {
    gs.map_values(|g: FormGroup| group_view(g))
}

/// `s` with `x` at the end, unless it holds it already.
pub open spec fn pushed_new(s: Seq<Seq<char>>, x: Seq<char>) -> Seq<Seq<char>> {
    if s.contains(x) {
        s
    } else {
        s.push(x)
    }
}

/// A group of the lemma `from`.
pub open spec fn group_of(from: Seq<char>) -> spec_fn(GroupView) -> bool {
    |g: GroupView| g.0 == from
}

/// The groups after meeting the form `to` of the lemma `from`, with the rules `rule`: added to
/// the group of the lemma, or in a new group at the end.
pub open spec fn grouped_step(gs: Seq<GroupView>, link: (Seq<char>, Seq<char>, Seq<char>)) -> Seq<GroupView> {
    let (from, rule, to) = link;
    let i = first_index(gs, group_of(from));
    if i < gs.len() {
        gs.update(i, (from, pushed_new(gs[i].1, rule), pushed_new(gs[i].2, to)))
    } else {
        gs.push((from, seq![rule], seq![to]))
    }
}

/// The groups after meeting each of `links` in turn.
pub open spec fn grouped_all(gs: Seq<GroupView>, links: Seq<(Seq<char>, Seq<char>, Seq<char>)>) -> Seq<GroupView>
    decreases links.len(),
{
    if links.len() == 0 {
        gs
    } else {
        grouped_step(grouped_all(gs, links.drop_last()), links.last())
    }
}

/// The lemma that a definition inflects (empty for other definitions).
pub open spec fn inflected_from(d: DetailedDefinition) -> Seq<char> {
    match d {
        DetailedDefinition::Inflection(p) => p.0@,
        _ => Seq::<char>::empty(),
    }
}

/// The (lemma, rules, form) of each definition of a form.
pub open spec fn def_links(defs: Seq<DetailedDefinition>, rules: Seq<char>, term: Seq<char>) -> Seq<(Seq<char>, Seq<char>, Seq<char>)> {
    defs.map_values(|d: DetailedDefinition| (inflected_from(d), rules, term))
}

/// The (lemma, rules, form) of each definition of each form in turn.
pub open spec fn form_links(forms: Seq<TermInfoForm>) -> Seq<(Seq<char>, Seq<char>, Seq<char>)>
    decreases forms.len(),
{
    if forms.len() == 0 {
        Seq::empty()
    } else {
        form_links(forms.drop_last()) + def_links(forms.last().definitions@, forms.last().rules@, forms.last().term@)
    }
}

/// Every definition of every form is an inflection.
pub open spec fn all_inflections(forms: Seq<TermInfoForm>) -> bool {
    forall|i: int, j: int|
        0 <= i < forms.len() && 0 <= j < forms[i].definitions@.len() ==> (#[trigger] forms[i].definitions@[j]) is Inflection
}

/// The groups are well formed: each lemma has one group, and no group holds a rule or a form
/// twice.
pub open spec fn groups_ok(gs: Seq<GroupView>) -> bool {
    &&& forall|i: int, j: int| 0 <= i < j < gs.len() ==> gs[i].0 != gs[j].0
    &&& forall|i: int| 0 <= i < gs.len() ==> (#[trigger] gs[i]).1.no_duplicates() && gs[i].2.no_duplicates()
}

/// `link` is in the groups: the group of its lemma holds its rules and its form.
pub open spec fn link_grouped(gs: Seq<GroupView>, link: (Seq<char>, Seq<char>, Seq<char>)) -> bool {
    exists|i: int| 0 <= i < gs.len() && (#[trigger] gs[i]).0 == link.0 && gs[i].1.contains(link.1) && gs[i].2.contains(link.2)
}

proof fn lemma_pushed_new(s: Seq<Seq<char>>, x: Seq<char>)
    requires
        s.no_duplicates(),
    ensures
        pushed_new(s, x).no_duplicates(),
        pushed_new(s, x).contains(x),
        forall|y: Seq<char>| s.contains(y) ==> pushed_new(s, x).contains(y),
{
    if !s.contains(x) {
        let r = s.push(x);
        assert forall|a: int, b: int| 0 <= a < r.len() && 0 <= b < r.len() && a != b implies r[a] != r[b] by {
            if a == s.len() as int {
                assert(!s.contains(r[b]) || r[b] != x);
            } else if b == s.len() as int {
                assert(s.contains(r[a]));
            }
        }
        assert forall|y: Seq<char>| s.contains(y) implies r.contains(y) by {
            let k = choose|k: int| 0 <= k < s.len() && s[k] == y;
            assert(r[k] == y);
        }
        assert(r[s.len() as int] == x);
    }
}

/// Grouping the forms of lemmas gives each lemma one group, holds no rule or form twice in a
/// group, and puts every form, with its rules, in the group of its lemma.
pub proof fn lemma_grouped_forms(links: Seq<(Seq<char>, Seq<char>, Seq<char>)>)
    ensures
        groups_ok(grouped_all(Seq::empty(), links)),
        forall|k: int| 0 <= k < links.len() ==> link_grouped(grouped_all(Seq::empty(), links), #[trigger] links[k]),
    decreases links.len(),
{
    if links.len() > 0 {
        let prev = links.drop_last();
        lemma_grouped_forms(prev);
        let gs = grouped_all(Seq::empty(), prev);
        let x = links.last();
        let r = grouped_step(gs, x);
        let i = first_index(gs, group_of(x.0));
        crate::seqs::lemma_first_index_spec(gs, group_of(x.0));
        if i < gs.len() {
            lemma_pushed_new(gs[i].1, x.1);
            lemma_pushed_new(gs[i].2, x.2);
            assert forall|a: int| 0 <= a < r.len() implies #[trigger] r[a].0 == gs[a].0 by {}
            assert forall|a: int| 0 <= a < r.len() implies (#[trigger] r[a]).1.no_duplicates() && r[a].2.no_duplicates() by {
                if a != i {
                    assert(r[a] == gs[a]);
                }
            }
            assert(link_grouped(r, x)) by {
                assert(r[i].0 == x.0);
            }
            assert forall|k: int| 0 <= k < links.len() implies link_grouped(r, #[trigger] links[k]) by {
                if k < prev.len() {
                    assert(prev[k] == links[k]);
                    assert(link_grouped(gs, prev[k]));
                    let a = choose|a: int| 0 <= a < gs.len() && (#[trigger] gs[a]).0 == prev[k].0 && gs[a].1.contains(prev[k].1) && gs[a].2.contains(prev[k].2);
                    assert(r[a].0 == gs[a].0);
                    if a == i {
                        assert(r[a].1.contains(prev[k].1));
                        assert(r[a].2.contains(prev[k].2));
                    } else {
                        assert(r[a] == gs[a]);
                    }
                } else {
                    assert(links[k] == x);
                }
            }
        } else {
            assert forall|a: int| 0 <= a < gs.len() implies #[trigger] r[a] == gs[a] by {}
            assert(seq![x.1].no_duplicates());
            assert(seq![x.2].no_duplicates());
            assert(r[gs.len() as int] == (x.0, seq![x.1], seq![x.2]));
            assert(seq![x.1][0] == x.1);
            assert(seq![x.2][0] == x.2);
            assert(link_grouped(r, x)) by {
                assert(r[gs.len() as int].0 == x.0);
            }
            assert forall|a: int, b: int| 0 <= a < b < r.len() implies r[a].0 != r[b].0 by {
                if b == gs.len() {
                    assert(!group_of(x.0)(gs[a]));
                }
            }
            assert forall|k: int| 0 <= k < links.len() implies link_grouped(r, #[trigger] links[k]) by {
                if k < prev.len() {
                    assert(prev[k] == links[k]);
                    assert(link_grouped(gs, prev[k]));
                    let a = choose|a: int| 0 <= a < gs.len() && (#[trigger] gs[a]).0 == prev[k].0 && gs[a].1.contains(prev[k].1) && gs[a].2.contains(prev[k].2);
                    assert(r[a] == gs[a]);
                } else {
                    assert(links[k] == x);
                }
            }
        }
    }
}

/// Adds `x` at the end of `v` unless it holds it already.
fn push_new(v: &mut Vec<String>, x: &str)
    ensures
        views(final(v)@) == pushed_new(views(old(v)@), x@),
{
    if !string_in(v, x) {
        v.push(owned(x));
        assert(views(v@) =~= views(old(v)@).push(x@));
    }
}

/// Meets the form `to` of the lemma `from`, with the rules `rule` (see [`grouped_step`]).
fn group_step(gs: &mut Vec<FormGroup>, from: &str, rule: &str, to: &str)
    ensures
        group_views(final(gs)@) == grouped_step(group_views(old(gs)@), (from@, rule@, to@)),
{
    let ghost m = group_views(gs@);
    let mut i: usize = 0;
    while i < gs.len()
        invariant
            i <= gs@.len(),
            m == group_views(gs@),
            m.len() == gs@.len(),
            gs@ == old(gs)@,
            forall|j: int| 0 <= j < i ==> !group_of(from@)(#[trigger] m[j]),
        decreases gs@.len() - i,
    {
        if str_eq(gs[i].from.as_str(), from) {
            proof {
                lemma_first_index(m, group_of(from@), i as int);
            }
            push_new(&mut gs[i].rules, rule);
            push_new(&mut gs[i].tos, to);
            assert(group_views(gs@) =~= grouped_step(m, (from@, rule@, to@)));
            return;
        }
        i += 1;
    }
    proof {
        lemma_first_index(m, group_of(from@), i as int);
    }
    let g = FormGroup { from: owned(from), rules: vec![owned(rule)], tos: vec![owned(to)] };
    assert(views(g.rules@) =~= seq![rule@]);
    assert(views(g.tos@) =~= seq![to@]);
    gs.push(g);
    assert(group_views(gs@) =~= grouped_step(m, (from@, rule@, to@)));
}

/// The forms grouped by the lemma they inflect, for debugging inflections (see
/// [`grouped_all`]).
pub fn group_forms(forms: &Vec<TermInfoForm>) -> (r: Vec<FormGroup>)
    requires
        all_inflections(forms@),
    ensures
        group_views(r@) == grouped_all(Seq::empty(), form_links(forms@)),
{
    let mut gs: Vec<FormGroup> = Vec::new();
    let ghost fs = forms@;
    let mut i: usize = 0;
    assert(group_views(gs@) =~= Seq::<GroupView>::empty());
    assert(fs.take(0) =~= Seq::<TermInfoForm>::empty());
    while i < forms.len()
        invariant
            i <= fs.len(),
            fs == forms@,
            all_inflections(fs),
            group_views(gs@) == grouped_all(Seq::empty(), form_links(fs.take(i as int))),
        decreases fs.len() - i,
    {
        let f = &forms[i];
        let ghost before = form_links(fs.take(i as int));
        let ghost links = def_links(f.definitions@, f.rules@, f.term@);
        let mut j: usize = 0;
        assert(before + links.take(0) =~= before);
        while j < f.definitions.len()
            invariant
                j <= f.definitions@.len(),
                fs == forms@,
                *f == fs[i as int],
                0 <= i < fs.len(),
                all_inflections(fs),
                links == def_links(f.definitions@, f.rules@, f.term@),
                group_views(gs@) == grouped_all(Seq::empty(), before + links.take(j as int)),
            decreases f.definitions@.len() - j,
        {
            assert(f.definitions@[j as int] is Inflection);
            match &f.definitions[j] {
                DetailedDefinition::Inflection(p) => {
                    group_step(&mut gs, p.0.as_str(), f.rules.as_str(), f.term.as_str());
                },
                _ => {},
            }
            assert((before + links.take(j + 1)).drop_last() =~= before + links.take(j as int));
            j += 1;
        }
        assert(links.take(f.definitions@.len() as int) =~= links);
        assert(fs.take(i + 1).drop_last() =~= fs.take(i as int));
        i += 1;
    }
    assert(fs.take(fs.len() as int) =~= fs);
    gs
}

/// A (lemma, rules, form) link as (lemma, form).
pub open spec fn alt_of_link() -> spec_fn((Seq<char>, Seq<char>, Seq<char>)) -> (Seq<char>, Seq<char>) {
    |l: (Seq<char>, Seq<char>, Seq<char>)| (l.0, l.2)
}

/// The views of (lemma, form) pairs.
pub open spec fn pair_views(v: Seq<(String, String)>) -> Seq<(Seq<char>, Seq<char>)> {
    v.map_values(|p: (String, String)| (p.0@, p.1@))
}

/// The alternative headwords that forms give their lemmas: (lemma, form) for each definition of
/// each form in turn, repeats kept (see [`form_links`]).
pub fn form_alts(forms: &Vec<TermInfoForm>) -> (r: Vec<(String, String)>)
    requires
        all_inflections(forms@),
    ensures
        pair_views(r@) == form_links(forms@).map_values(alt_of_link()),
{
    let mut r: Vec<(String, String)> = Vec::new();
    let ghost fs = forms@;
    let mut i: usize = 0;
    assert(fs.take(0) =~= Seq::<TermInfoForm>::empty());
    assert(pair_views(r@) =~= form_links(fs.take(0)).map_values(alt_of_link()));
    while i < forms.len()
        invariant
            i <= fs.len(),
            fs == forms@,
            all_inflections(fs),
            pair_views(r@) == form_links(fs.take(i as int)).map_values(alt_of_link()),
        decreases fs.len() - i,
    {
        let f = &forms[i];
        let ghost before = form_links(fs.take(i as int));
        let ghost links = def_links(f.definitions@, f.rules@, f.term@);
        let mut j: usize = 0;
        assert(before + links.take(0) =~= before);
        while j < f.definitions.len()
            invariant
                j <= f.definitions@.len(),
                fs == forms@,
                *f == fs[i as int],
                0 <= i < fs.len(),
                all_inflections(fs),
                links == def_links(f.definitions@, f.rules@, f.term@),
                pair_views(r@) == (before + links.take(j as int)).map_values(alt_of_link()),
            decreases f.definitions@.len() - j,
        {
            assert(f.definitions@[j as int] is Inflection);
            let ghost prev = r@;
            match &f.definitions[j] {
                DetailedDefinition::Inflection(p) => {
                    r.push((p.0.clone(), f.term.clone()));
                },
                _ => {},
            }
            assert((before + links.take(j + 1)) =~= (before + links.take(j as int)).push(links[j as int]));
            assert(pair_views(r@) =~= pair_views(prev).push((links[j as int].0, links[j as int].2)));
            assert((before + links.take(j + 1)).map_values(alt_of_link()) =~= (before + links.take(
                j as int,
            )).map_values(alt_of_link()).push(alt_of_link()(links[j as int])));
            j += 1;
        }
        assert(links.take(f.definitions@.len() as int) =~= links);
        assert(fs.take(i + 1).drop_last() =~= fs.take(i as int));
        i += 1;
    }
    assert(fs.take(fs.len() as int) =~= fs);
    r
}

/// Lines, each followed by a line break.
pub open spec fn lines(s: Seq<Seq<char>>) -> Seq<char>
    decreases s.len(),
{
    if s.len() == 0 {
        Seq::empty()
    } else {
        lines(s.drop_last()) + s.last() + "\n"@
    }
}

/// A group of forms as text: the lemma and its rules on a line, then each form on a line, then
/// an empty line.
pub open spec fn group_text(g: GroupView) -> Seq<char> {
    g.0 + " | "@ + join_sep(g.1, ", "@) + "\n"@ + lines(g.2) + "\n"@
}

/// Groups of forms as text, one after the other.
pub open spec fn groups_text(gs: Seq<GroupView>) -> Seq<char>
    decreases gs.len(),
{
    if gs.len() == 0 {
        Seq::empty()
    } else {
        groups_text(gs.drop_last()) + group_text(gs.last())
    }
}

/// Groups of forms as text (see [`groups_text`]).
pub fn debug_forms_text(gs: &Vec<FormGroup>) -> (r: String)
    ensures
        r@ == groups_text(group_views(gs@)),
{
    let ghost m = group_views(gs@);
    let mut out = String::new();
    let mut i: usize = 0;
    assert(m.take(0) =~= Seq::<GroupView>::empty());
    while i < gs.len()
        invariant
            i <= gs@.len(),
            m == group_views(gs@),
            out@ == groups_text(m.take(i as int)),
        decreases gs@.len() - i,
    {
        let g = &gs[i];
        let ghost s0 = out@;
        out.append(g.from.as_str());
        out.append(" | ");
        let rules = join(&g.rules, ", ");
        out.append(rules.as_str());
        out.append("\n");
        let ghost s1 = out@;
        let ghost tos = views(g.tos@);
        let mut k: usize = 0;
        assert(tos.take(0) =~= Seq::<Seq<char>>::empty());
        while k < g.tos.len()
            invariant
                k <= g.tos@.len(),
                tos == views(g.tos@),
                out@ == s1 + lines(tos.take(k as int)),
            decreases g.tos@.len() - k,
        {
            out.append(g.tos[k].as_str());
            out.append("\n");
            assert(tos.take(k + 1).drop_last() =~= tos.take(k as int));
            assert(out@ =~= s1 + lines(tos.take(k + 1)));
            k += 1;
        }
        assert(tos.take(g.tos@.len() as int) =~= tos);
        out.append("\n");
        assert(m[i as int] == group_view(*g));
        assert(out@ =~= s0 + group_text(m[i as int]));
        assert(m.take(i + 1).drop_last() =~= m.take(i as int));
        i += 1;
    }
    assert(m.take(gs@.len() as int) =~= m);
    out
}

/// The most entries a bank file holds.
pub const BANK_SIZE: usize = 25000;

/// The banks of one group of `len` entries, from `start` on: consecutive ranges
/// (group, start, end) of at most [`BANK_SIZE`] entries, up to the end of the group.
pub open spec fn group_banks(g: usize, start: nat, len: nat) -> Seq<(usize, usize, usize)>
    decreases len + BANK_SIZE - start,
{
    if start >= len {
        Seq::empty()
    } else {
        let end: nat = if len - start > BANK_SIZE { (start + BANK_SIZE) as nat } else { len };
        seq![(g, start as usize, end as usize)] + group_banks(g, (start + BANK_SIZE) as nat, len)
    }
}

/// The banks of groups of entries of lengths `lens` (lemmas, forms, metas), group after group;
/// each group starts a new bank, and an empty group makes none.
pub open spec fn bank_plan_spec(lens: Seq<usize>) -> Seq<(usize, usize, usize)>
    decreases lens.len(),
{
    if lens.len() == 0 {
        Seq::empty()
    } else {
        bank_plan_spec(lens.drop_last()) + group_banks((lens.len() - 1) as usize, 0, lens.last() as nat)
    }
}

/// How many banks a group of `len` entries takes from `start` on: ⌈(len − start) / BANK_SIZE⌉.
pub open spec fn banks_needed(start: nat, len: nat) -> nat {
    if start >= len {
        0
    } else {
        ((len - start - 1) as nat / BANK_SIZE as nat + 1) as nat
    }
}

/// The banks of a group: ⌈(len − start) / BANK_SIZE⌉ of them, the `i`-th starting at
/// `start + i * BANK_SIZE`, each non-empty, of at most [`BANK_SIZE`] entries, ending where the
/// next starts, the last ending at `len`.
pub proof fn lemma_group_banks(g: usize, start: nat, len: nat)
    requires
        len <= usize::MAX,
    ensures
        group_banks(g, start, len).len() == banks_needed(start, len),
        forall|i: int| 0 <= i < group_banks(g, start, len).len() ==> {
            let b = #[trigger] group_banks(g, start, len)[i];
            &&& b.0 == g
            &&& b.1 == start + i * BANK_SIZE
            &&& b.1 < b.2 <= len
            &&& b.2 - b.1 <= BANK_SIZE
            &&& (i + 1 < group_banks(g, start, len).len() ==> b.2 == group_banks(g, start, len)[i + 1].1)
            &&& (i + 1 == group_banks(g, start, len).len() ==> b.2 == len)
        },
    decreases len + BANK_SIZE - start,
{
    if start < len {
        let rest = group_banks(g, (start + BANK_SIZE) as nat, len);
        lemma_group_banks(g, (start + BANK_SIZE) as nat, len);
        let r = group_banks(g, start, len);
        if len - start > BANK_SIZE {
            assert(banks_needed(start, len) == banks_needed((start + BANK_SIZE) as nat, len) + 1) by {
                assert((len - start - 1) as nat / 25000 == (len - (start + 25000) - 1) as nat / 25000 + 1)
                    by (nonlinear_arith)
                    requires len - start > 25000;
            }
        } else {
            assert(banks_needed(start, len) == 1) by {
                assert((len - start - 1) as nat / 25000 == 0) by (nonlinear_arith)
                    requires 0 < len - start <= 25000;
            }
        }
        assert forall|i: int| 0 <= i < r.len() implies {
            let b = #[trigger] r[i];
            &&& b.0 == g
            &&& b.1 == start + i * BANK_SIZE
            &&& b.1 < b.2 <= len
            &&& b.2 - b.1 <= BANK_SIZE
            &&& (i + 1 < r.len() ==> b.2 == r[i + 1].1)
            &&& (i + 1 == r.len() ==> b.2 == len)
        } by {
            if i > 0 {
                assert(r[i] == rest[i - 1]);
                assert(start + BANK_SIZE + (i - 1) * BANK_SIZE == start + i * BANK_SIZE) by (nonlinear_arith);
                if i + 1 < r.len() {
                    assert(r[i + 1] == rest[i]);
                }
            } else if i + 1 < r.len() {
                assert(r[1] == rest[0]);
            }
        }
    }
}

/// The banks of groups of entries of lengths `group_lens`: (group, start, end) ranges, each group
/// cut into ranges of at most [`BANK_SIZE`] entries in order, group after group (see
/// [`bank_plan_spec`] and [`lemma_group_banks`]).
pub fn bank_plan(group_lens: &Vec<usize>) -> (r: Vec<(usize, usize, usize)>)
    ensures
        r@ == bank_plan_spec(group_lens@),
{
    let mut r: Vec<(usize, usize, usize)> = Vec::new();
    let mut g: usize = 0;
    assert(group_lens@.take(0) =~= Seq::<usize>::empty());
    while g < group_lens.len()
        invariant
            g <= group_lens@.len(),
            r@ == bank_plan_spec(group_lens@.take(g as int)),
        decreases group_lens@.len() - g,
    {
        let len = group_lens[g];
        let ghost base = r@;
        let mut start: usize = 0;
        assert(base + group_banks(g, 0, len as nat) =~= base + group_banks(g, 0, len as nat));
        while start < len
            invariant
                start <= len,
                r@ + group_banks(g, start as nat, len as nat) == base + group_banks(g, 0, len as nat),
            decreases len - start,
        {
            let end = if len - start > BANK_SIZE { start + BANK_SIZE } else { len };
            let ghost before = r@;
            r.push((g, start, end));
            let next = if len - start > BANK_SIZE { start + BANK_SIZE } else { len };
            proof {
                let x = (g, start, end);
                assert(group_banks(g, start as nat, len as nat) == seq![x] + group_banks(
                    g,
                    (start + BANK_SIZE) as nat,
                    len as nat,
                ));
                if len - start <= BANK_SIZE {
                    assert(group_banks(g, (start + BANK_SIZE) as nat, len as nat) == Seq::<(usize, usize, usize)>::empty());
                    assert(group_banks(g, len as nat, len as nat) == Seq::<(usize, usize, usize)>::empty());
                }
                assert(r@ == before.push(x));
                assert(r@ + group_banks(g, next as nat, len as nat) =~= before + group_banks(g, start as nat, len as nat));
            }
            start = next;
        }
        proof {
            assert(group_banks(g, start as nat, len as nat) == Seq::<(usize, usize, usize)>::empty());
            assert(r@ =~= base + group_banks(g, 0, len as nat));
            assert(group_lens@.take(g + 1).drop_last() =~= group_lens@.take(g as int));
        }
        g += 1;
    }
    assert(group_lens@.take(group_lens@.len() as int) =~= group_lens@);
    r
}

/// The name of a bank file: `term_bank_3.json`.
pub fn bank_name(prefix: &str, index: usize) -> (r: String)
    ensures
        r@ == prefix@ + "_"@ + decimal(index as nat) + ".json"@,
{
    let mut r = concat(prefix, "_");
    let n = usize_to_string(index);
    r.append(n.as_str());
    r.append(".json");
    proof {
        reveal_strlit("_");
    }
    r
}

} // verus!
