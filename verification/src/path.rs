//! Where the data, the temporary files and the dictionaries go.
//!
//! Paths are strings whose components are joined with `/`.
use vstd::prelude::*;
use crate::cli::{DictName, LangSpecs, Options};
use crate::lang::{Edition, EditionSpec, Lang, edition_code, lang_code};
use crate::text::{chars_of, concat, concat3, owned};

verus! {

/// The kind of dictionary being made; it decides some of the paths.
#[derive(Debug, Clone, Copy, PartialEq, Eq, Structural)]
pub enum DictionaryType {
    Main,
    Glossary,
    GlossaryExtended,
    Ipa,
    IpaMerged,
}

/// The name of a dictionary type, as used for its temporary folder.
pub open spec fn dict_type_name(t: DictionaryType) -> Seq<char> {
    match t {
        DictionaryType::Main => "main"@,
        DictionaryType::Glossary => "glossary"@,
        DictionaryType::GlossaryExtended => "glossary-ext"@,
        DictionaryType::Ipa => "ipa"@,
        DictionaryType::IpaMerged => "ipa-merged"@,
    }
}

impl DictionaryType {
    /// The name of the type (`"glossary-ext"`).
    pub fn name(&self) -> (r: &'static str)
        ensures
            r@ == dict_type_name(*self),
    {
        match self {
            DictionaryType::Main => "main",
            DictionaryType::Glossary => "glossary",
            DictionaryType::GlossaryExtended => "glossary-ext",
            DictionaryType::Ipa => "ipa",
            DictionaryType::IpaMerged => "ipa-merged",
        }
    }
}

/// Whether a dataset is filtered by language (tests only) or a whole Kaikki download.
#[derive(Debug, Clone, Copy, PartialEq, Eq, Structural)]
pub enum PathKind {
    /// A filtered jsonl. For tests only.
    Filtered,
    /// An unfiltered jsonl.
    Unfiltered,
}

/// `base` and `part` joined by one `/` (none is added after a `/`, nor to an empty base).
pub open spec fn join_path(base: Seq<char>, part: Seq<char>) -> Seq<char> {
    if base.len() == 0 {
        part
    } else if base.last() == '/' {
        base + part
    } else {
        base + seq!['/'] + part
    }
}

/// `base` and `part` joined by one `/`.
pub fn path_join(base: &str, part: &str) -> (r: String)
    ensures
        r@ == join_path(base@, part@),
{
    let cs = chars_of(base);
    if cs.len() == 0 {
        owned(part)
    } else if cs[cs.len() - 1] == '/' {
        concat(base, part)
    } else {
        let mut r = owned(base);
        crate::text::push_char(&mut r, '/');
        r.append(part);
        r
    }
}

/// A dataset file and its kind.
#[derive(Debug)]
struct DatasetPath {
    kind: PathKind,
    path: String,
}

/// Dataset files with their kinds.
#[derive(Debug)]
pub struct DatasetPaths {
    inner: Vec<DatasetPath>,
}

impl View for DatasetPaths {
    type V = Seq<(PathKind, Seq<char>)>;

    /// The kinds and paths of the datasets, in order.
    closed spec fn view(&self) -> Seq<(PathKind, Seq<char>)> {
        self.inner@.map_values(|d: DatasetPath| (d.kind, d.path@))
    }
}

/// The file of a whole edition: `<root>/<edition>-extract.jsonl`.
pub open spec fn unfiltered_path(edition: Edition, root: Seq<char>) -> Seq<char> {
    join_path(root, edition_code(edition) + "-extract.jsonl"@)
}

/// The file of one language of an edition: `<root>/<lang>-<edition>-extract.jsonl`.
pub open spec fn filtered_path(edition: Edition, lang: Lang, root: Seq<char>) -> Seq<char> {
    join_path(root, lang_code(lang) + "-"@ + edition_code(edition) + "-extract.jsonl"@)
}

fn dataset_raw_unfiltered(edition: Edition, root: &str) -> (r: DatasetPath)
    ensures
        r.kind == PathKind::Unfiltered,
        r.path@ == unfiltered_path(edition, root@),
{
    let file = concat(edition.as_ref(), "-extract.jsonl");
    DatasetPath { kind: PathKind::Unfiltered, path: path_join(root, file.as_str()) }
}

fn dataset_raw_filtered(edition: Edition, lang: Lang, root: &str) -> (r: DatasetPath)
    ensures
        r.kind == PathKind::Filtered,
        r.path@ == filtered_path(edition, lang, root@),
{
    let head = concat3(lang.as_ref(), "-", edition.as_ref());
    let file = concat(head.as_str(), "-extract.jsonl");
    DatasetPath { kind: PathKind::Filtered, path: path_join(root, file.as_str()) }
}

impl DatasetPaths {
    /// The datasets of `edition` under `root`: the file filtered for `lang` first when there is
    /// a language, then the whole edition.
    pub fn new(edition: Edition, lang: Option<Lang>, root: &str) -> (r: DatasetPaths)
        ensures
            r@ == match lang {
                Some(l) => seq![
                    (PathKind::Filtered, filtered_path(edition, l, root@)),
                    (PathKind::Unfiltered, unfiltered_path(edition, root@)),
                ],
                None => seq![(PathKind::Unfiltered, unfiltered_path(edition, root@))],
            },
    {
        let mut inner: Vec<DatasetPath> = Vec::new();
        match lang {
            Some(l) => {
                inner.push(dataset_raw_filtered(edition, l, root));
                inner.push(dataset_raw_unfiltered(edition, root));
            },
            None => {
                inner.push(dataset_raw_unfiltered(edition, root));
            },
        }
        let r = DatasetPaths { inner };
        assert(r@ =~= match lang {
            Some(l) => seq![
                (PathKind::Filtered, filtered_path(edition, l, root@)),
                (PathKind::Unfiltered, unfiltered_path(edition, root@)),
            ],
            None => seq![(PathKind::Unfiltered, unfiltered_path(edition, root@))],
        });
        r
    }

    /// The paths of the datasets whose kind is one of `kinds`, in order.
    pub fn of_kind(&self, kinds: &[PathKind]) -> (r: Vec<String>)
        ensures
            crate::text::views(r@) == self@.filter(kind_among(kinds@)).map_values(|e: (PathKind, Seq<char>)| e.1),
    {
        let ghost pred = kind_among(kinds@);
        let mut r: Vec<String> = Vec::new();
        let mut i: usize = 0;
        assert(self@.take(0) =~= Seq::<(PathKind, Seq<char>)>::empty());
        while i < self.inner.len()
            invariant
                i <= self.inner@.len(),
                pred == kind_among(kinds@),
                self@.len() == self.inner@.len(),
                crate::text::views(r@) == self@.take(i as int).filter(pred).map_values(|e: (PathKind, Seq<char>)| e.1),
            decreases self.inner@.len() - i,
        {
            let d = &self.inner[i];
            assert(self@[i as int] == (d.kind, d.path@));
            let mut found = false;
            let mut k: usize = 0;
            while k < kinds.len()
                invariant
                    k <= kinds@.len(),
                    found == exists|j: int| 0 <= j < k && kinds@[j] == d.kind,
                decreases kinds@.len() - k,
            {
                if kinds[k] == d.kind {
                    found = true;
                }
                k += 1;
            }
            proof {
                crate::seqs::lemma_filter_take(self@, pred, i as int);
                if found {
                    let j = choose|j: int| 0 <= j < kinds@.len() && kinds@[j] == d.kind;
                    assert(kinds@.contains(d.kind));
                } else {
                    assert(!kinds@.contains(d.kind));
                }
            }
            if found {
                let ghost before = r@;
                r.push(d.path.clone());
                assert(crate::text::views(r@) =~= crate::text::views(before).push(d.path@));
                assert(self@.take(i + 1).filter(pred).map_values(|e: (PathKind, Seq<char>)| e.1)
                    =~= self@.take(i as int).filter(pred).map_values(|e: (PathKind, Seq<char>)| e.1).push(d.path@));
            }
            i += 1;
        }
        assert(self@.take(self@.len() as int) =~= self@);
        r
    }
}

/// A dataset whose kind is one of `kinds`.
pub open spec fn kind_among(kinds: Seq<PathKind>) -> spec_fn((PathKind, Seq<char>)) -> bool {
    |e: (PathKind, Seq<char>)| kinds.contains(e.0)
}

/// The code of an edition choice: `"all"` or the edition's code.
pub open spec fn edition_spec_code(e: EditionSpec) -> Seq<char> {
    match e {
        EditionSpec::All => "all"@,
        EditionSpec::One(ed) => edition_code(ed),
    }
}

/// The paths and parameters of one dictionary build.
#[derive(Debug)]
pub struct PathManager {
    pub dict_ty: DictionaryType,
    pub dict_name: DictName,
    pub langs: LangSpecs,
    pub opts: Options,
}

/// `data/kaikki`
pub open spec fn kaikki_dir(pm: PathManager) -> Seq<char> {
    join_path(pm.opts.root_dir@, "kaikki"@)
}

/// `data/dict`
pub open spec fn dicts_dir(pm: PathManager) -> Seq<char> {
    join_path(pm.opts.root_dir@, "dict"@)
}

/// `data/dict/<source>/<target>`, or `data/dict/<target>/<edition>` for a merged IPA dictionary,
/// which has no source.
pub open spec fn dict_dir(pm: PathManager) -> Seq<char> {
    join_path(
        dicts_dir(pm),
        if pm.dict_ty == DictionaryType::IpaMerged {
            lang_code(pm.langs.target) + seq!['/'] + edition_spec_code(pm.langs.edition)
        } else {
            lang_code(pm.langs.source) + seq!['/'] + lang_code(pm.langs.target)
        },
    )
}

/// `data/dict/el/el/temp-main`
pub open spec fn temp_dir(pm: PathManager) -> Seq<char> {
    join_path(dict_dir(pm), "temp-"@ + dict_type_name(pm.dict_ty))
}

/// `data/dict/el/el/temp-main/tidy`
pub open spec fn tidy_dir(pm: PathManager) -> Seq<char> {
    join_path(temp_dir(pm), "tidy"@)
}

/// The name of the dictionary with its languages and kind: `wty-el-en`, `wty-el-en-gloss`.
pub open spec fn expanded_name(pm: PathManager) -> Seq<char> {
    let n = pm.dict_name.0@;
    let s = lang_code(pm.langs.source);
    let t = lang_code(pm.langs.target);
    let base = match pm.dict_ty {
        DictionaryType::Main => n + "-"@ + s + "-"@ + t,
        DictionaryType::Glossary => n + "-"@ + s + "-"@ + t + "-gloss"@,
        DictionaryType::GlossaryExtended => n + "-"@ + edition_spec_code(pm.langs.edition) + "-"@ + s + "-"@ + t
            + "-gloss"@,
        DictionaryType::Ipa => n + "-"@ + s + "-"@ + t + "-ipa"@,
        DictionaryType::IpaMerged => n + "-"@ + t + "-ipa"@,
    };
    if pm.opts.experimental {
        base + "-exp"@
    } else {
        base
    }
}

impl PathManager {
    /// Sets the edition(s).
    pub fn set_edition(&mut self, edition: EditionSpec)
        ensures
            final(self).langs.edition == edition,
            final(self).langs.source == old(self).langs.source,
            final(self).langs.target == old(self).langs.target,
            final(self).dict_ty == old(self).dict_ty,
            final(self).dict_name == old(self).dict_name,
            final(self).opts == old(self).opts,
    {
        self.langs.edition = edition;
    }

    /// Sets the source language.
    pub fn set_source(&mut self, source: Lang)
        ensures
            final(self).langs.source == source,
            final(self).langs.edition == old(self).langs.edition,
            final(self).langs.target == old(self).langs.target,
            final(self).dict_ty == old(self).dict_ty,
            final(self).dict_name == old(self).dict_name,
            final(self).opts == old(self).opts,
    {
        self.langs.source = source;
    }

    /// Sets the target language.
    pub fn set_target(&mut self, target: Lang)
        ensures
            final(self).langs.target == target,
            final(self).langs.edition == old(self).langs.edition,
            final(self).langs.source == old(self).langs.source,
            final(self).dict_ty == old(self).dict_ty,
            final(self).dict_name == old(self).dict_name,
            final(self).opts == old(self).opts,
    {
        self.langs.target = target;
    }

    /// The edition(s), source and target.
    pub fn langs(&self) -> (r: (EditionSpec, Lang, Lang))
        ensures
            r == (self.langs.edition, self.langs.source, self.langs.target),
    {
        (self.langs.edition, self.langs.source, self.langs.target)
    }

    /// Example: `data/kaikki`
    pub fn dir_kaik(&self) -> (r: String)
        ensures
            r@ == kaikki_dir(*self),
    {
        path_join(self.opts.root_dir.as_str(), "kaikki")
    }

    /// The directory of all dictionaries. Example: `data/dict`
    pub fn dir_dicts(&self) -> (r: String)
        ensures
            r@ == dicts_dir(*self),
    {
        path_join(self.opts.root_dir.as_str(), "dict")
    }

    /// Example: `data/dict/el/el`
    pub fn dir_dict(&self) -> (r: String)
        ensures
            r@ == dict_dir(*self),
    {
        let sub = match self.dict_ty {
            DictionaryType::IpaMerged => concat3(self.langs.target.as_ref(), "/", self.langs.edition.as_ref()),
            _ => concat3(self.langs.source.as_ref(), "/", self.langs.target.as_ref()),
        };
        proof { reveal_strlit("/"); }
        let dicts = self.dir_dicts();
        path_join(dicts.as_str(), sub.as_str())
    }

    /// The temporary folder of this kind of dictionary. Example: `data/dict/el/el/temp-main`
    pub fn dir_temp(&self) -> (r: String)
        ensures
            r@ == temp_dir(*self),
    {
        let name = concat("temp-", self.dict_ty.name());
        let dict = self.dir_dict();
        path_join(dict.as_str(), name.as_str())
    }

    /// Example: `data/dict/el/el/temp-main/tidy`
    pub fn dir_tidy(&self) -> (r: String)
        ensures
            r@ == tidy_dir(*self),
    {
        let temp = self.dir_temp();
        path_join(temp.as_str(), "tidy")
    }

    /// The datasets of `edition` (filtered for `lang` when there is one) under `data/kaikki`.
    pub fn dataset_paths(&self, edition: Edition, lang: Option<Lang>) -> (r: DatasetPaths)
        ensures
            r@ == match lang {
                Some(l) => seq![
                    (PathKind::Filtered, filtered_path(edition, l, kaikki_dir(*self))),
                    (PathKind::Unfiltered, unfiltered_path(edition, kaikki_dir(*self))),
                ],
                None => seq![(PathKind::Unfiltered, unfiltered_path(edition, kaikki_dir(*self)))],
            },
    {
        let root = self.dir_kaik();
        DatasetPaths::new(edition, lang, root.as_str())
    }

    /// Example: `data/dict/el/el/temp-main/tidy/el-el-lemmas.json`
    pub fn path_lemmas(&self) -> (r: String)
        ensures
            r@ == join_path(tidy_dir(*self), lang_code(self.langs.source) + "-"@ + lang_code(self.langs.target)
                + "-lemmas.json"@),
    {
        let head = concat3(self.langs.source.as_ref(), "-", self.langs.target.as_ref());
        let file = concat(head.as_str(), "-lemmas.json");
        let tidy = self.dir_tidy();
        path_join(tidy.as_str(), file.as_str())
    }

    /// Example: `data/dict/el/el/temp-main/tidy/el-el-forms.json`
    pub fn path_forms(&self) -> (r: String)
        ensures
            r@ == join_path(tidy_dir(*self), lang_code(self.langs.source) + "-"@ + lang_code(self.langs.target)
                + "-forms.json"@),
    {
        let head = concat3(self.langs.source.as_ref(), "-", self.langs.target.as_ref());
        let file = concat(head.as_str(), "-forms.json");
        let tidy = self.dir_tidy();
        path_join(tidy.as_str(), file.as_str())
    }

    /// The working directory of the dictionary before zipping. Example:
    /// `data/dict/el/el/temp-main/dict`
    pub fn dir_temp_dict(&self) -> (r: String)
        ensures
            r@ == join_path(temp_dir(*self), "dict"@),
    {
        let temp = self.dir_temp();
        path_join(temp.as_str(), "dict")
    }

    /// The name of the dictionary with its languages and kind (see [`expanded_name`]); it is
    /// also the name of its zip file.
    pub fn dict_name_expanded(&self) -> (r: String)
        ensures
            r@ == expanded_name(*self),
    {
        let n = self.dict_name.as_str();
        let s = self.langs.source.as_ref();
        let t = self.langs.target.as_ref();
        let mut r = owned(n);
        match self.dict_ty {
            DictionaryType::Main => {
                r.append("-"); r.append(s); r.append("-"); r.append(t);
            },
            DictionaryType::Glossary => {
                r.append("-"); r.append(s); r.append("-"); r.append(t); r.append("-gloss");
            },
            DictionaryType::GlossaryExtended => {
                r.append("-"); r.append(self.langs.edition.as_ref()); r.append("-"); r.append(s);
                r.append("-"); r.append(t); r.append("-gloss");
            },
            DictionaryType::Ipa => {
                r.append("-"); r.append(s); r.append("-"); r.append(t); r.append("-ipa");
            },
            DictionaryType::IpaMerged => {
                r.append("-"); r.append(t); r.append("-ipa");
            },
        }
        if self.opts.experimental {
            r.append("-exp");
        }
        r
    }

    /// Example: `data/dict/el/en/wty-el-en.zip`
    pub fn path_dict(&self) -> (r: String)
        ensures
            r@ == join_path(dict_dir(*self), expanded_name(*self) + ".zip"@),
    {
        let name = self.dict_name_expanded();
        let file = concat(name.as_str(), ".zip");
        let dict = self.dir_dict();
        path_join(dict.as_str(), file.as_str())
    }

    /// Example: `data/dict/el/el/temp-main/diagnostics`
    pub fn dir_diagnostics(&self) -> (r: String)
        ensures
            r@ == join_path(temp_dir(*self), "diagnostics"@),
    {
        let temp = self.dir_temp();
        path_join(temp.as_str(), "diagnostics")
    }
}

/// The address of the raw wiktextract dump of an edition on kaikki.org (gzipped jsonlines).
pub open spec fn dataset_url_of(edition: Edition) -> Seq<char> {
    if edition == Edition::En {
        "https://kaikki.org/dictionary/raw-wiktextract-data.jsonl.gz"@
    } else {
        "https://kaikki.org/"@ + edition_code(edition) + "wiktionary/raw-wiktextract-data.jsonl.gz"@
    }
}

/// The address of the raw dump of an edition (see [`dataset_url_of`]).
pub fn dataset_url(edition: Edition) -> (r: String)
    ensures
        r@ == dataset_url_of(edition),
{
    if edition == Edition::En {
        owned("https://kaikki.org/dictionary/raw-wiktextract-data.jsonl.gz")
    } else {
        concat3("https://kaikki.org/", edition.as_ref(), "wiktionary/raw-wiktextract-data.jsonl.gz")
    }
}

} // verus!
