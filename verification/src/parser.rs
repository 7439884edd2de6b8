//! Parsing the text that `cargo info -q <crate> --color never` prints.
use vstd::prelude::*;
use vstd::string::*;

use crate::text::{
    chars_of, find, find_in, has_prefix, nonempty_trimmed, pieces, pieces_from, rfind, rfind_in,
    starts_with, text_of, trim, trim_range, words, word_ranges, cut, ranges_within, join_lines,
    line_ranges, lines,
};
use crate::types::{CrateInfo, CrateInfoView, Feature, FeatureView, features_view};

verus! {

broadcast use vstd::string::group_string_axioms;

/// An error that occurred while parsing the output of `cargo info`.
#[derive(Debug, PartialEq, Eq, Clone)]
pub enum ParseError {
    /// The input string was empty.
    Empty,
    /// The first line (crate name and optional keywords) could not be parsed;
    /// it holds that line.
    InvalidHeader(String),
    /// A required field was absent from the output; it names the field
    /// (`"version"` or `"license"`).
    MissingField(&'static str),
}

/// The mathematical model of a [`ParseError`].
pub ghost enum ParseErrorView {
    Empty,
    InvalidHeader(Seq<char>),
    MissingField(Seq<char>),
}

impl View for ParseError {
    type V = ParseErrorView;

    open spec fn view(&self) -> ParseErrorView {
        match self {
            ParseError::Empty => ParseErrorView::Empty,
            ParseError::InvalidHeader(l) => ParseErrorView::InvalidHeader(l@),
            ParseError::MissingField(k) => ParseErrorView::MissingField(k@),
        }
    }
}

// ── Specification of single lines ───────────────────────────────────────────

/// What `strip_key` gives: the trimmed rest of `line` after `prefix`, if
/// `line` starts with `prefix`.
pub open spec fn spec_strip_key(line: Seq<char>, prefix: Seq<char>) -> Option<Seq<char>> {
    if has_prefix(line, prefix) {
        Some(trim(line.subrange(prefix.len() as int, line.len() as int)))
    } else {
        None
    }
}

/// `line` starts with one of the field labels that `cargo info` prints.
pub open spec fn is_key_line(line: Seq<char>) -> bool {
    ||| has_prefix(line, "version:"@)
    ||| has_prefix(line, "license:"@)
    ||| has_prefix(line, "rust-version:"@)
    ||| has_prefix(line, "documentation:"@)
    ||| has_prefix(line, "homepage:"@)
    ||| has_prefix(line, "repository:"@)
    ||| has_prefix(line, "crates.io:"@)
    ||| has_prefix(line, "features:"@)
}

/// The words of a header after the name that start with `'#'`, without it.
pub open spec fn hash_tags(ws: Seq<Seq<char>>) -> Seq<Seq<char>>
    decreases ws.len(),
{
    if ws.len() == 0 {
        seq![]
    } else {
        let prev = hash_tags(ws.drop_last());
        let w = ws.last();
        if w.len() > 0 && w[0] == '#' {
            prev.push(w.drop_first())
        } else {
            prev
        }
    }
}

/// What `parse_header` gives: the first word as the name, and the later
/// words that start with `'#'` as keywords.
pub open spec fn spec_header(line: Seq<char>) -> Result<
    (Seq<char>, Seq<Seq<char>>),
    ParseErrorView,
> {
    let ws = words(line);
    if ws.len() == 0 {
        Err(ParseErrorView::InvalidHeader(line))
    } else {
        Ok((ws[0], hash_tags(ws.drop_first())))
    }
}

/// The dependencies listed between the brackets of a feature line: the
/// comma-separated entries, trimmed, empty ones left out.
pub open spec fn deps_of(s: Seq<char>) -> Seq<Seq<char>> {
    nonempty_trimmed(pieces(s, ','))
}

/// What `parse_feature_line` gives. A feature line starts with `' '`, then
/// `'+'` (a default feature) or `' '`; after that comes the name, `" = ["`,
/// the dependencies, and a last `']'`.
pub open spec fn spec_feature(line: Seq<char>) -> Option<FeatureView> {
    if line.len() < 2 || line[0] != ' ' || !(line[1] == '+' || line[1] == ' ') {
        None
    } else {
        let rest = line.subrange(2, line.len() as int);
        match find(rest, " = ["@) {
            None => None,
            Some(i) => {
                let name = trim(rest.subrange(0, i));
                if name.len() == 0 {
                    None
                } else {
                    let after = rest.subrange(i + " = ["@.len(), rest.len() as int);
                    match rfind(after, ']') {
                        None => None,
                        Some(c) => Some(
                            FeatureView {
                                is_default: line[1] == '+',
                                name,
                                dependencies: deps_of(after.subrange(0, c)),
                            },
                        ),
                    }
                }
            }
        }
    }
}

// ── Executable single-line functions ────────────────────────────────────────

/// Returns `true` if `line` begins with one of the known field labels
/// produced by `cargo info`.
pub fn is_known_key_line(line: &str) -> (r: bool)
    ensures
        r == is_key_line(line@),
{
    let v = chars_of(line);
    starts_with(&v, &chars_of("version:")) || starts_with(&v, &chars_of("license:"))
        || starts_with(&v, &chars_of("rust-version:")) || starts_with(
        &v,
        &chars_of("documentation:"),
    ) || starts_with(&v, &chars_of("homepage:")) || starts_with(&v, &chars_of("repository:"))
        || starts_with(&v, &chars_of("crates.io:")) || starts_with(&v, &chars_of("features:"))
}

/// Strips `prefix` from the start of `line` and trims the remainder.
/// Returns `None` if `line` does not start with `prefix`.
pub fn strip_key(line: &str, prefix: &str) -> (r: Option<String>)
    ensures
        r.deep_view() == spec_strip_key(line@, prefix@),
{
    let v = chars_of(line);
    let p = chars_of(prefix);
    if starts_with(&v, &p) {
        let (a, b) = trim_range(&v, p.len(), v.len());
        Some(text_of(line, &v, a, b))
    } else {
        None
    }
}

/// The dependencies between positions `lo` and `hi` of a feature line.
fn dependency_list(line: &str, v: &Vec<char>, lo: usize, hi: usize) -> (deps: Vec<String>)
    requires
        v@ == line@,
        lo <= hi <= v.len(),
    ensures
        deps.deep_view() == deps_of(v@.subrange(lo as int, hi as int)),
{
    let ghost s = v@.subrange(lo as int, hi as int);
    let ghost mut done: Seq<Seq<char>> = seq![];
    let mut deps: Vec<String> = Vec::new();
    let mut start = lo;
    let mut i = lo;
    proof {
        assert(v@.subrange(lo as int, lo as int) =~= Seq::<char>::empty());
        assert(done + pieces(s, ',') =~= pieces(s, ','));
        assert(deps.deep_view() =~= Seq::<Seq<char>>::empty());
    }
    while i < hi
        invariant
            lo <= start <= i <= hi <= v.len(),
            v@ == line@,
            s == v@.subrange(lo as int, hi as int),
            pieces(s, ',') == done + pieces_from(
                v@.subrange(i as int, hi as int),
                ',',
                v@.subrange(start as int, i as int),
            ),
            deps.deep_view() == nonempty_trimmed(done),
        decreases hi - i,
    {
        let ghost rest = v@.subrange(i as int, hi as int);
        proof {
            assert(rest.drop_first() =~= v@.subrange(i + 1, hi as int));
            assert(rest[0] == v@[i as int]);
        }
        if v[i] == ',' {
            let ghost piece = v@.subrange(start as int, i as int);
            let (a, b) = trim_range(v, start, i);
            if a < b {
                let d = text_of(line, v, a, b);
                let ghost before = deps.deep_view();
                deps.push(d);
                proof {
                    assert(deps.deep_view() =~= before.push(trim(piece)));
                }
            }
            proof {
                assert(done.push(piece).drop_last() =~= done);
                assert(v@.subrange(i + 1, i + 1) =~= Seq::<char>::empty());
                let tail = pieces_from(v@.subrange(i + 1, hi as int), ',', seq![]);
                assert(done + (seq![piece] + tail) =~= done.push(piece) + tail);
                done = done.push(piece);
            }
            start = i + 1;
        } else {
            proof {
                assert(v@.subrange(start as int, i as int).push(v@[i as int]) =~= v@.subrange(
                    start as int,
                    i + 1,
                ));
            }
        }
        i = i + 1;
    }
    let ghost piece = v@.subrange(start as int, hi as int);
    let (a, b) = trim_range(v, start, hi);
    if a < b {
        let d = text_of(line, v, a, b);
        let ghost before = deps.deep_view();
        deps.push(d);
        proof {
            assert(deps.deep_view() =~= before.push(trim(piece)));
        }
    }
    proof {
        assert(done.push(piece).drop_last() =~= done);
        assert(done + seq![piece] =~= done.push(piece));
    }
    deps
}

/// Parses a single feature-flag line from the `features:` block.
///
/// Valid formats:
///
/// ```text
///  +default      = [derive, parsing, printing]
///   clone-impls  = []
/// ```
///
/// Lines that do not match the expected indentation and structure return
/// `None`.
pub fn parse_feature_line(line: &str) -> (r: Option<Feature>)
    ensures
        match r {
            Some(f) => spec_feature(line@) == Some(f@),
            None => spec_feature(line@) is None,
        },
{
    let v = chars_of(line);
    if v.len() < 1 || v[0] != ' ' {
        return None;
    }
    if v.len() < 2 {
        return None;
    }
    let is_default = if v[1] == '+' {
        true
    } else if v[1] == ' ' {
        false
    } else {
        return None;
    };
    let n = v.len();
    let ghost rest = v@.subrange(2, n as int);
    let pat = chars_of(" = [");
    let idx = match find_in(&v, 2, n, &pat) {
        Some(i) => i,
        None => return None,
    };
    proof {
        assert(rest.subrange(0, idx as int) =~= v@.subrange(2, 2 + idx));
    }
    let (a, b) = trim_range(&v, 2, 2 + idx);
    if a == b {
        return None;
    }
    let name = text_of(line, &v, a, b);
    let open = 2 + idx + pat.len();
    proof {
        assert(rest.subrange(idx + pat@.len(), rest.len() as int) =~= v@.subrange(
            open as int,
            n as int,
        ));
    }
    let close = match rfind_in(&v, open, n, ']') {
        Some(c) => c,
        None => return None,
    };
    proof {
        assert(v@.subrange(open as int, n as int).subrange(0, close as int) =~= v@.subrange(
            open as int,
            open + close,
        ));
    }
    let dependencies = dependency_list(line, &v, open, open + close);
    Some(Feature { is_default, name, dependencies })
}

// ── Header ─────────────────────────────────────────────────────────────────

/// Parses the first line of `cargo info` output into `(name, keywords)`.
///
/// Input format: `<name>[ #<kw1> #<kw2> ...]`
pub fn parse_header(line: &str) -> (r: Result<(String, Vec<String>), ParseError>)
    ensures
        match r {
            Ok((name, keywords)) => spec_header(line@) == Ok::<
                (Seq<char>, Seq<Seq<char>>),
                ParseErrorView,
            >((name@, keywords.deep_view())),
            Err(e) => spec_header(line@) == Err::<(Seq<char>, Seq<Seq<char>>), ParseErrorView>(
                e@,
            ),
        },
{
    let v = chars_of(line);
    let ws = word_ranges(&v);
    let ghost all = words(v@);
    if ws.len() == 0 {
        return Err(ParseError::InvalidHeader(line.to_owned()));
    }
    proof {
        assert(all[0] == cut(v@, ws@)[0]);
    }
    let name = text_of(line, &v, ws[0].0, ws[0].1);
    let mut keywords: Vec<String> = Vec::new();
    let mut k: usize = 1;
    proof {
        assert(all.drop_first().take(0) =~= Seq::<Seq<char>>::empty());
        assert(keywords.deep_view() =~= Seq::<Seq<char>>::empty());
    }
    while k < ws.len()
        invariant
            1 <= k <= ws.len(),
            v@ == line@,
            all == words(v@),
            all == cut(v@, ws@),
            ranges_within(ws@, v@.len()),
            forall|j: int| 0 <= j < ws@.len() ==> #[trigger] ws@[j].0 < ws@[j].1,
            keywords.deep_view() == hash_tags(all.drop_first().take(k - 1)),
        decreases ws.len() - k,
    {
        let (a, b) = ws[k];
        let ghost w = all[k as int];
        proof {
            assert(w == v@.subrange(a as int, b as int));
            assert(all.drop_first().take(k as int).drop_last() =~= all.drop_first().take(k - 1));
            assert(all.drop_first().take(k as int).last() == w);
        }
        if v[a] == '#' {
            let kw = text_of(line, &v, a + 1, b);
            let ghost before = keywords.deep_view();
            keywords.push(kw);
            proof {
                assert(w.drop_first() =~= v@.subrange(a + 1, b as int));
                assert(keywords.deep_view() =~= before.push(w.drop_first()));
            }
        }
        k = k + 1;
    }
    proof {
        assert(all.drop_first().take(ws.len() - 1) =~= all.drop_first());
    }
    Ok((name, keywords))
}

// ── Key-value fields ────────────────────────────────────────────────────────

/// Accumulates the optional key-value fields found between the description
/// and the features block. Fields that do not appear are `None`.
pub struct RawFields {
    /// The published version (e.g., `"1.0.0"` or `"2.0.117"`).
    pub version: Option<String>,
    /// The SPDX license expression (e.g., `"MIT OR Apache-2.0"`).
    pub license: Option<String>,
    /// The minimum supported Rust version (e.g., `"1.71"`).
    pub rust_version: Option<String>,
    /// The URL of the crate's API documentation.
    pub documentation: Option<String>,
    /// The URL of the crate's homepage.
    pub homepage: Option<String>,
    /// The URL of the crate's source repository.
    pub repository: Option<String>,
    /// The URL of the crate's page on crates.io.
    pub crates_io: Option<String>,
}

/// The mathematical model of [`RawFields`].
pub ghost struct RawFieldsView {
    pub version: Option<Seq<char>>,
    pub license: Option<Seq<char>>,
    pub rust_version: Option<Seq<char>>,
    pub documentation: Option<Seq<char>>,
    pub homepage: Option<Seq<char>>,
    pub repository: Option<Seq<char>>,
    pub crates_io: Option<Seq<char>>,
}

impl View for RawFields {
    type V = RawFieldsView;

    open spec fn view(&self) -> RawFieldsView {
        RawFieldsView {
            version: self.version.deep_view(),
            license: self.license.deep_view(),
            rust_version: self.rust_version.deep_view(),
            documentation: self.documentation.deep_view(),
            homepage: self.homepage.deep_view(),
            repository: self.repository.deep_view(),
            crates_io: self.crates_io.deep_view(),
        }
    }
}

/// Fields of which none has been seen.
pub open spec fn no_fields() -> RawFieldsView {
    RawFieldsView {
        version: None,
        license: None,
        rust_version: None,
        documentation: None,
        homepage: None,
        repository: None,
        crates_io: None,
    }
}

impl Default for RawFields {
    fn default() -> (r: Self)
        ensures
            r@ == no_fields(),
    {
        RawFields {
            version: None,
            license: None,
            rust_version: None,
            documentation: None,
            homepage: None,
            repository: None,
            crates_io: None,
        }
    }
}

/// What `RawFields::apply` makes of `f` and `line`: the field whose label
/// starts the line gets the trimmed rest of the line; any other line changes
/// nothing.
pub open spec fn spec_apply(f: RawFieldsView, line: Seq<char>) -> RawFieldsView {
    if let Some(v) = spec_strip_key(line, "version:"@) {
        RawFieldsView { version: Some(v), ..f }
    } else if let Some(v) = spec_strip_key(line, "license:"@) {
        RawFieldsView { license: Some(v), ..f }
    } else if let Some(v) = spec_strip_key(line, "rust-version:"@) {
        RawFieldsView { rust_version: Some(v), ..f }
    } else if let Some(v) = spec_strip_key(line, "documentation:"@) {
        RawFieldsView { documentation: Some(v), ..f }
    } else if let Some(v) = spec_strip_key(line, "homepage:"@) {
        RawFieldsView { homepage: Some(v), ..f }
    } else if let Some(v) = spec_strip_key(line, "repository:"@) {
        RawFieldsView { repository: Some(v), ..f }
    } else if let Some(v) = spec_strip_key(line, "crates.io:"@) {
        RawFieldsView { crates_io: Some(v), ..f }
    } else {
        f
    }
}

impl RawFields {
    /// Recognizes and stores a single `key: value` line.
    pub fn apply(&mut self, line: &str)
        ensures
            final(self)@ == spec_apply(old(self)@, line@),
    {
        if let Some(v) = strip_key(line, "version:") {
            self.version = Some(v);
        } else if let Some(v) = strip_key(line, "license:") {
            self.license = Some(v);
        } else if let Some(v) = strip_key(line, "rust-version:") {
            self.rust_version = Some(v);
        } else if let Some(v) = strip_key(line, "documentation:") {
            self.documentation = Some(v);
        } else if let Some(v) = strip_key(line, "homepage:") {
            self.homepage = Some(v);
        } else if let Some(v) = strip_key(line, "repository:") {
            self.repository = Some(v);
        } else if let Some(v) = strip_key(line, "crates.io:") {
            self.crates_io = Some(v);
        }
        // "features:" is handled by the caller via a state transition.
    }
}

// ── The parser's states ─────────────────────────────────────────────────────

/// Marker type for a parser reading the description.
///
/// Valid transitions: Description → Description or Description → Fields.
struct ParsingDescription;

/// Marker type for a parser reading key-value fields.
///
/// Valid transitions: Fields → Fields or Fields → Features.
struct ParsingFields;

/// Marker type for a parser reading feature lines.
///
/// Valid transitions: Features → Features or Features → Complete.
struct ParsingFeatures;

/// Marker type for a parser that has read everything.
struct ParsingComplete;

/// A parser in a specific state, given by a marker type, so that only the
/// valid transitions can be written.
struct Parser<S> {
    state_marker: std::marker::PhantomData<S>,
    name: String,
    keywords: Vec<String>,
    description_parts: Vec<String>,
    fields: RawFields,
    features: Vec<Feature>,
}

/// What a parser has gathered so far.
pub ghost struct ParserView {
    pub name: Seq<char>,
    pub keywords: Seq<Seq<char>>,
    pub description: Seq<Seq<char>>,
    pub fields: RawFieldsView,
    pub features: Seq<FeatureView>,
}

impl<S> View for Parser<S> {
    type V = ParserView;

    closed spec fn view(&self) -> ParserView {
        ParserView {
            name: self.name@,
            keywords: self.keywords.deep_view(),
            description: self.description_parts.deep_view(),
            fields: self.fields@,
            features: features_view(self.features@),
        }
    }
}

/// The part of the output that a parser is reading.
pub ghost enum Phase {
    Description,
    Fields,
    Features,
}

/// A parser's phase together with what it has gathered.
pub ghost struct Progress {
    pub phase: Phase,
    pub parser: ParserView,
}

/// How one line after the header moves the parser on.
///
/// - Description: a line that starts with a field label is applied as a
///   field and moves to Fields; any other line is a description line.
/// - Fields: a line that starts with `features:` moves to Features; any other
///   line is applied as a field.
/// - Features: a feature line adds a feature; any other line is ignored.
pub open spec fn spec_step(m: Progress, line: Seq<char>) -> Progress {
    let p = m.parser;
    match m.phase {
        Phase::Description => if is_key_line(line) {
            Progress { phase: Phase::Fields, parser: ParserView { fields: spec_apply(p.fields, line), ..p } }
        } else {
            Progress { phase: Phase::Description, parser: ParserView { description: p.description.push(line), ..p } }
        },
        Phase::Fields => if has_prefix(line, "features:"@) {
            Progress { phase: Phase::Features, parser: p }
        } else {
            Progress { phase: Phase::Fields, parser: ParserView { fields: spec_apply(p.fields, line), ..p } }
        },
        Phase::Features => match spec_feature(line) {
            Some(f) => Progress { phase: Phase::Features, parser: ParserView { features: p.features.push(f), ..p } },
            None => m,
        },
    }
}

/// The parser after reading `lines` from `start`.
pub open spec fn spec_run(start: Progress, lines: Seq<Seq<char>>) -> Progress {
    lines.fold_left(start, |m: Progress, l: Seq<char>| spec_step(m, l))
}

/// A parser in `phase` that has gathered `parser`.
pub open spec fn in_phase(phase: Phase, parser: ParserView) -> Progress {
    Progress { phase, parser }
}

/// A parser that has read the header and nothing else.
pub open spec fn initial_progress(name: Seq<char>, keywords: Seq<Seq<char>>) -> Progress {
    Progress {
        phase: Phase::Description,
        parser: ParserView {
            name,
            keywords,
            description: seq![],
            fields: no_fields(),
            features: seq![],
        },
    }
}

/// The crate information that a parser's gatherings make: an error if the
/// version, then if the license, is missing.
pub open spec fn spec_finish(p: ParserView) -> Result<CrateInfoView, ParseErrorView> {
    if p.fields.version is None {
        Err(ParseErrorView::MissingField("version"@))
    } else if p.fields.license is None {
        Err(ParseErrorView::MissingField("license"@))
    } else {
        Ok(
            CrateInfoView {
                name: p.name,
                keywords: p.keywords,
                description: join_lines(p.description),
                version: p.fields.version->0,
                license: p.fields.license->0,
                rust_version: p.fields.rust_version,
                documentation: p.fields.documentation,
                homepage: p.fields.homepage,
                repository: p.fields.repository,
                crates_io: p.fields.crates_io,
                features: p.features,
            },
        )
    }
}

/// What `parse` gives for `input`: the first line is the header; every later
/// line moves the parser on; then the gatherings make the crate information.
pub open spec fn spec_parse(input: Seq<char>) -> Result<CrateInfoView, ParseErrorView> {
    let ls = lines(input);
    if ls.len() == 0 {
        Err(ParseErrorView::Empty)
    } else {
        match spec_header(ls[0]) {
            Err(e) => Err(e),
            Ok((name, keywords)) => spec_finish(
                spec_run(initial_progress(name, keywords), ls.drop_first()).parser,
            ),
        }
    }
}

/// The model of a result of parsing.
pub open spec fn result_view(r: Result<CrateInfo, ParseError>) -> Result<
    CrateInfoView,
    ParseErrorView,
> {
    match r {
        Ok(info) => Ok(info@),
        Err(e) => Err(e@),
    }
}

/// The model of a parser's state with its phase.
spec fn state_progress(st: ParserState) -> Progress {
    match st {
        ParserState::Description(p) => in_phase(Phase::Description, p@),
        ParserState::Fields(p) => in_phase(Phase::Fields, p@),
        ParserState::Features(p) => in_phase(Phase::Features, p@),
    }
}

/// Result type for transitions from the Description state.
enum ParserOrFields {
    Description(Parser<ParsingDescription>),
    Fields(Parser<ParsingFields>),
}

/// Result type for transitions from the Fields state.
enum ParserOrFeatures {
    Fields(Parser<ParsingFields>),
    Features(Parser<ParsingFeatures>),
}

/// A parser in any of its states before completion.
enum ParserState {
    Description(Parser<ParsingDescription>),
    Fields(Parser<ParsingFields>),
    Features(Parser<ParsingFeatures>),
}

impl Parser<ParsingDescription> {
    /// Creates a new parser in the Description state.
    fn new(name: String, keywords: Vec<String>) -> (p: Self)
        ensures
            in_phase(Phase::Description, p@) == initial_progress(name@, keywords.deep_view()),
    {
        let p = Parser {
            state_marker: std::marker::PhantomData,
            name,
            keywords,
            description_parts: Vec::new(),
            fields: RawFields::default(),
            features: Vec::new(),
        };
        proof {
            assert(p.description_parts.deep_view() =~= Seq::<Seq<char>>::empty());
            assert(features_view(p.features@) =~= Seq::<FeatureView>::empty());
        }
        p
    }

    /// Processes one line in the Description state, staying there or moving
    /// to the Fields state.
    fn process_line(self, line: &str) -> (r: ParserOrFields)
        ensures
            match r {
                ParserOrFields::Description(p) => spec_step(
                    in_phase(Phase::Description, self@),
                    line@,
                ) == in_phase(Phase::Description, p@),
                ParserOrFields::Fields(p) => spec_step(
                    in_phase(Phase::Description, self@),
                    line@,
                ) == in_phase(Phase::Fields, p@),
            },
    {
        let mut me = self;
        if is_known_key_line(line) {
            me.fields.apply(line);
            ParserOrFields::Fields(me.transition_to_fields())
        } else {
            me.description_parts.push(line.to_owned());
            proof {
                assert(me.description_parts.deep_view() =~= self@.description.push(line@));
            }
            ParserOrFields::Description(me)
        }
    }

    /// Moves from the Description state to the Fields state.
    fn transition_to_fields(self) -> (p: Parser<ParsingFields>)
        ensures
            p@ == self@,
    {
        Parser {
            state_marker: std::marker::PhantomData,
            name: self.name,
            keywords: self.keywords,
            description_parts: self.description_parts,
            fields: self.fields,
            features: self.features,
        }
    }
}

impl Parser<ParsingFields> {
    /// Processes one line in the Fields state, staying there or moving to
    /// the Features state.
    fn process_line(self, line: &str) -> (r: ParserOrFeatures)
        ensures
            match r {
                ParserOrFeatures::Fields(p) => spec_step(
                    in_phase(Phase::Fields, self@),
                    line@,
                ) == in_phase(Phase::Fields, p@),
                ParserOrFeatures::Features(p) => spec_step(
                    in_phase(Phase::Fields, self@),
                    line@,
                ) == in_phase(Phase::Features, p@),
            },
    {
        let mut me = self;
        if starts_with(&chars_of(line), &chars_of("features:")) {
            ParserOrFeatures::Features(me.transition_to_features())
        } else {
            me.fields.apply(line);
            ParserOrFeatures::Fields(me)
        }
    }

    /// Moves from the Fields state to the Features state.
    fn transition_to_features(self) -> (p: Parser<ParsingFeatures>)
        ensures
            p@ == self@,
    {
        Parser {
            state_marker: std::marker::PhantomData,
            name: self.name,
            keywords: self.keywords,
            description_parts: self.description_parts,
            fields: self.fields,
            features: self.features,
        }
    }
}

impl Parser<ParsingFeatures> {
    /// Processes one line in the Features state, which it never leaves; a
    /// line that is no feature line is ignored.
    fn process_line(self, line: &str) -> (p: Self)
        ensures
            spec_step(in_phase(Phase::Features, self@), line@) == in_phase(Phase::Features, p@),
    {
        let mut me = self;
        if let Some(feature) = parse_feature_line(line) {
            me.features.push(feature);
            proof {
                assert(features_view(me.features@) =~= features_view(self.features@).push(feature@));
            }
        }
        me
    }

    /// Moves from the Features state to the Complete state.
    fn complete(self) -> (r: Result<Parser<ParsingComplete>, ParseError>)
        ensures
            r matches Ok(p) && p@ == self@,
    {
        Ok(
            Parser {
                state_marker: std::marker::PhantomData,
                name: self.name,
                keywords: self.keywords,
                description_parts: self.description_parts,
                fields: self.fields,
                features: self.features,
            },
        )
    }
}

/// The parts joined with a `'\n'` between each two.
fn join_with_newlines(parts: &Vec<String>) -> (r: String)
    ensures
        r@ == join_lines(parts.deep_view()),
{
    let mut out = String::new();
    let ghost all = parts.deep_view();
    proof {
        reveal_strlit("\n");
        assert(all.take(0) =~= Seq::<Seq<char>>::empty());
    }
    let mut i: usize = 0;
    while i < parts.len()
        invariant
            i <= parts.len(),
            all == parts.deep_view(),
            out@ == join_lines(all.take(i as int)),
            "\n"@ == seq!['\n'],
        decreases parts.len() - i,
    {
        proof {
            assert(all.take(i + 1).drop_last() =~= all.take(i as int));
            assert(all.take(i + 1).last() == parts@[i as int]@);
        }
        if i > 0 {
            out.append("\n");
        }
        out.append(parts[i].as_str());
        proof {
            if i == 0 {
                assert(out@ =~= all.take(1)[0]);
            } else {
                assert(out@ =~= join_lines(all.take(i as int)) + seq!['\n'] + parts@[i as int]@);
            }
        }
        i = i + 1;
    }
    proof {
        assert(all.take(parts.len() as int) =~= all);
    }
    out
}

impl Parser<ParsingComplete> {
    /// Extracts the final `CrateInfo` from a completed parser.
    fn into_crate_info(self) -> (r: Result<CrateInfo, ParseError>)
        ensures
            result_view(r) == spec_finish(self@),
    {
        let description = join_with_newlines(&self.description_parts);
        let version = match self.fields.version {
            Some(v) => v,
            None => return Err(ParseError::MissingField("version")),
        };
        let license = match self.fields.license {
            Some(l) => l,
            None => return Err(ParseError::MissingField("license")),
        };
        Ok(
            CrateInfo {
                name: self.name,
                keywords: self.keywords,
                description,
                version,
                license,
                rust_version: self.fields.rust_version,
                documentation: self.fields.documentation,
                homepage: self.fields.homepage,
                repository: self.fields.repository,
                crates_io: self.fields.crates_io,
                features: self.features,
            },
        )
    }
}

/// Parses the text output produced by `cargo info -q <crate-name> --color
/// never`.
///
/// The expected format is:
///
/// ```text
/// <name> [#<keyword> ...]
/// <description line(s)>
/// version: <version>
/// license: <license>
/// [rust-version: <msrv>]
/// [documentation: <url>]
/// [homepage: <url>]
/// [repository: <url>]
/// [crates.io: <url>]
/// [features:
///  +<name> = [<dep>, ...]
///   <name> = []]
/// ```
///
/// # Errors
///
/// Returns a [`ParseError`] if the input is empty, the header line is
/// malformed, or a required field (`version` or `license`) is absent.
pub fn parse(input: &str) -> (r: Result<CrateInfo, ParseError>)
    ensures
        result_view(r) == spec_parse(input@),
{
    let v = chars_of(input);
    let ranges = line_ranges(&v);
    let ghost ls = lines(input@);
    if ranges.len() == 0 {
        return Err(ParseError::Empty);
    }
    let header_line = input.substring_char(ranges[0].0, ranges[0].1);
    proof {
        assert(header_line@ == ls[0]);
    }
    let (name, keywords) = match parse_header(header_line) {
        Ok(nk) => nk,
        Err(e) => return Err(e),
    };
    let ghost start = initial_progress(name@, keywords.deep_view());
    let ghost body = ls.drop_first();
    let mut state = ParserState::Description(Parser::new(name, keywords));
    let mut k: usize = 1;
    proof {
        assert(body.take(0) =~= Seq::<Seq<char>>::empty());
    }
    while k < ranges.len()
        invariant
            1 <= k <= ranges.len(),
            v@ == input@,
            ls == lines(input@),
            ls == cut(v@, ranges@),
            body == ls.drop_first(),
            ranges_within(ranges@, v@.len()),
            state_progress(state) == spec_run(start, body.take(k - 1)),
        decreases ranges.len() - k,
    {
        let line = input.substring_char(ranges[k].0, ranges[k].1);
        proof {
            assert(line@ == body[k - 1]);
            assert(body.take(k as int).drop_last() =~= body.take(k - 1));
            assert(body.take(k as int).last() == body[k - 1]);
        }
        state = match state {
            ParserState::Description(p) => match p.process_line(line) {
                ParserOrFields::Description(p) => ParserState::Description(p),
                ParserOrFields::Fields(p) => ParserState::Fields(p),
            },
            ParserState::Fields(p) => match p.process_line(line) {
                ParserOrFeatures::Fields(p) => ParserState::Fields(p),
                ParserOrFeatures::Features(p) => ParserState::Features(p),
            },
            ParserState::Features(p) => ParserState::Features(p.process_line(line)),
        };
        k = k + 1;
    }
    proof {
        assert(body.take(ranges.len() - 1) =~= body);
    }
    let completed = match state {
        ParserState::Description(p) => p.transition_to_fields().transition_to_features().complete(),
        ParserState::Fields(p) => p.transition_to_features().complete(),
        ParserState::Features(p) => p.complete(),
    };
    match completed {
        Ok(p) => p.into_crate_info(),
        Err(e) => Err(e),
    }
}

} // verus!
