//! Properties of the parser that hold of every input.
use vstd::prelude::*;

use crate::parser::{
    deps_of, hash_tags, initial_progress, is_key_line, no_fields, spec_apply, spec_feature, spec_header, spec_parse,
    spec_finish, spec_run, spec_step, spec_strip_key, ParseErrorView, ParserView, Phase, Progress,
    RawFieldsView,
};
use crate::text::{
    find, find_from, has_prefix, is_ws, lines, lines_from, nonempty_trimmed, occurs_at, pieces,
    join_lines, pieces_from, rfind, trim, trim_end, trim_start, words, words_from,
};
use crate::types::FeatureView;

verus! {

// ── Lines ───────────────────────────────────────────────────────────────────

proof fn lemma_lines_from_nonempty(s: Seq<char>, cur: Seq<char>)
    requires
        s.len() > 0 || cur.len() > 0,
    ensures
        lines_from(s, cur).len() > 0,
    decreases s.len(),
{
    if s.len() > 0 && s[0] != '\n' {
        lemma_lines_from_nonempty(s.drop_first(), cur.push(s[0]));
    }
}

/// Only the empty text has no lines.
pub proof fn law_no_lines_iff_empty(s: Seq<char>)
    ensures
        lines(s).len() == 0 <==> s.len() == 0,
{
    if s.len() > 0 {
        lemma_lines_from_nonempty(s, seq![]);
    }
}

proof fn lemma_lines_from_final_newline(x: Seq<char>, cur: Seq<char>)
    requires
        (x.len() > 0 && x.last() != '\n' && x.last() != '\r') || (x.len() == 0 && cur.len() > 0
            && cur.last() != '\r'),
    ensures
        lines_from(x.push('\n'), cur) == lines_from(x, cur),
    decreases x.len(),
{
    let y = x.push('\n');
    if x.len() == 0 {
        assert(y[0] == '\n');
        assert(y.drop_first() =~= Seq::<char>::empty());
        assert(lines_from(Seq::<char>::empty(), seq![]) =~= Seq::<Seq<char>>::empty());
        assert(crate::text::strip_cr(cur) == cur);
        assert(lines_from(y, cur) =~= seq![cur]);
    } else {
        assert(y[0] == x[0]);
        assert(y.drop_first() =~= x.drop_first().push('\n'));
        if x[0] == '\n' {
            lemma_lines_from_final_newline(x.drop_first(), seq![]);
        } else {
            lemma_lines_from_final_newline(x.drop_first(), cur.push(x[0]));
        }
    }
}

/// A final line ending changes nothing: a text that does not end in `'\n'`
/// or `'\r'` has the same lines with a `'\n'` after it.
pub proof fn law_final_newline_optional(s: Seq<char>)
    requires
        s.len() > 0,
        s.last() != '\n',
        s.last() != '\r',
    ensures
        lines(s.push('\n')) == lines(s),
{
    lemma_lines_from_final_newline(s, seq![]);
}

/// Whether a text ends in a final line ending makes no difference to what
/// `parse` gives.
pub proof fn law_parse_final_newline_optional(input: Seq<char>)
    requires
        input.len() > 0,
        input.last() != '\n',
        input.last() != '\r',
    ensures
        spec_parse(input.push('\n')) == spec_parse(input),
{
    law_final_newline_optional(input);
}

// ── Errors ──────────────────────────────────────────────────────────────────

/// `parse` reports an empty input exactly when the input is empty.
pub proof fn law_empty_error_iff_empty(input: Seq<char>)
    ensures
        spec_parse(input) == Err::<crate::types::CrateInfoView, ParseErrorView>(
            ParseErrorView::Empty,
        ) <==> input.len() == 0,
{
    law_no_lines_iff_empty(input);
    let ls = lines(input);
    if ls.len() > 0 {
        match spec_header(ls[0]) {
            Err(e) => {},
            Ok((name, keywords)) => {
                let p = spec_run(initial_progress(name, keywords), ls.drop_first()).parser;
                if p.fields.version is None {
                } else if p.fields.license is None {
                }
            },
        }
    }
}

proof fn lemma_words_from_empty(s: Seq<char>, cur: Seq<char>)
    ensures
        words_from(s, cur).len() == 0 <==> (cur.len() == 0 && forall|i: int|
            0 <= i < s.len() ==> is_ws(#[trigger] s[i])),
    decreases s.len(),
{
    if s.len() > 0 {
        if is_ws(s[0]) {
            lemma_words_from_empty(s.drop_first(), seq![]);
            if forall|i: int| 0 <= i < s.drop_first().len() ==> is_ws(#[trigger] s.drop_first()[i]) {
                assert forall|i: int| 0 <= i < s.len() implies is_ws(#[trigger] s[i]) by {
                    if i > 0 {
                        assert(s[i] == s.drop_first()[i - 1]);
                    }
                }
            }
        } else {
            lemma_words_from_empty(s.drop_first(), cur.push(s[0]));
        }
    }
}

/// A header line has no name exactly when it is all whitespace.
pub proof fn law_header_invalid_iff_blank(line: Seq<char>)
    ensures
        spec_header(line) is Err <==> forall|i: int| 0 <= i < line.len() ==> is_ws(#[trigger] line[i]),
{
    lemma_words_from_empty(line, seq![]);
}

// ── Fields ──────────────────────────────────────────────────────────────────

/// A field line gives back its trimmed value: `strip_key` of `prefix`
/// followed by `value` is the trimmed `value`.
pub proof fn law_strip_key_gives_value(prefix: Seq<char>, value: Seq<char>)
    ensures
        spec_strip_key(prefix + value, prefix) == Some(trim(value)),
{
    assert((prefix + value).subrange(0, prefix.len() as int) =~= prefix);
    assert((prefix + value).subrange(prefix.len() as int, (prefix + value).len() as int) =~= value);
}

// ── The layout of the output ────────────────────────────────────────────────

/// The first position at or after `i` of a line in `ls` that satisfies `p`,
/// or `ls.len()` if there is none.
pub open spec fn first_from(ls: Seq<Seq<char>>, i: nat, p: spec_fn(Seq<char>) -> bool) -> nat
    decreases ls.len() - i,
{
    if i >= ls.len() {
        ls.len()
    } else if p(ls[i as int]) {
        i
    } else {
        first_from(ls, i + 1, p)
    }
}

/// A line that starts with `features:`.
pub open spec fn is_features_line(line: Seq<char>) -> bool {
    has_prefix(line, "features:"@)
}

/// Where the fields begin among the lines after the header: the first line
/// that starts with a field label, or the end.
pub open spec fn fields_start(body: Seq<Seq<char>>) -> nat {
    first_from(body, 0, |l: Seq<char>| is_key_line(l))
}

/// Where the features begin: the first line after the first field line that
/// starts with `features:`, or the end.
pub open spec fn features_start(body: Seq<Seq<char>>) -> nat {
    let k = fields_start(body);
    if k >= body.len() {
        body.len()
    } else {
        first_from(body, k + 1, |l: Seq<char>| is_features_line(l))
    }
}

/// The fields that the lines `ls` set, applied in order to no fields.
pub open spec fn fields_of(ls: Seq<Seq<char>>) -> RawFieldsView {
    ls.fold_left(no_fields(), |f: RawFieldsView, l: Seq<char>| spec_apply(f, l))
}

/// The features that the feature lines among `ls` declare, in order.
pub open spec fn features_of(ls: Seq<Seq<char>>) -> Seq<FeatureView>
    decreases ls.len(),
{
    if ls.len() == 0 {
        seq![]
    } else {
        let prev = features_of(ls.drop_last());
        match spec_feature(ls.last()) {
            Some(f) => prev.push(f),
            None => prev,
        }
    }
}

proof fn lemma_first_from(ls: Seq<Seq<char>>, i: nat, p: spec_fn(Seq<char>) -> bool)
    requires
        i <= ls.len(),
    ensures
        i <= first_from(ls, i, p) <= ls.len(),
        forall|t: int| i <= t < first_from(ls, i, p) ==> !p(#[trigger] ls[t]),
        first_from(ls, i, p) < ls.len() ==> p(ls[first_from(ls, i, p) as int]),
    decreases ls.len() - i,
{
    if i < ls.len() && !p(ls[i as int]) {
        lemma_first_from(ls, i + 1, p);
    }
}

/// The parser after `n` lines of `body`, in terms of where the fields and
/// the features begin.
proof fn lemma_run_prefix(start: Progress, body: Seq<Seq<char>>, n: int)
    requires
        start.phase == Phase::Description,
        start.parser.description == Seq::<Seq<char>>::empty(),
        start.parser.fields == no_fields(),
        start.parser.features == Seq::<FeatureView>::empty(),
        0 <= n <= body.len(),
    ensures
        ({
            let m = spec_run(start, body.take(n));
            let k = fields_start(body) as int;
            let j = features_start(body) as int;
            &&& m.parser.name == start.parser.name
            &&& m.parser.keywords == start.parser.keywords
            &&& n <= k ==> m.phase == Phase::Description && m.parser.description == body.take(n)
                && m.parser.fields == no_fields() && m.parser.features == Seq::<FeatureView>::empty()
            &&& k < n <= j ==> m.phase == Phase::Fields && m.parser.description == body.take(k)
                && m.parser.fields == fields_of(body.subrange(k, n)) && m.parser.features
                == Seq::<FeatureView>::empty()
            &&& j < n ==> m.phase == Phase::Features && m.parser.description == body.take(k)
                && m.parser.fields == fields_of(body.subrange(k, j)) && m.parser.features
                == features_of(body.subrange(j + 1, n))
        }),
    decreases n,
{
    let k = fields_start(body) as int;
    let j = features_start(body) as int;
    lemma_first_from(body, 0, |l: Seq<char>| is_key_line(l));
    if k < body.len() {
        lemma_first_from(body, (k + 1) as nat, |l: Seq<char>| is_features_line(l));
    }
    assert(k <= j);
    assert(k < body.len() ==> k < j);
    if n == 0 {
        assert(body.take(0) =~= Seq::<Seq<char>>::empty());
    } else {
        lemma_run_prefix(start, body, n - 1);
        let prev = spec_run(start, body.take(n - 1));
        let line = body[n - 1];
        assert(body.take(n).drop_last() =~= body.take(n - 1));
        assert(body.take(n).last() == line);
        assert(spec_run(start, body.take(n)) == spec_step(prev, line));
        if n <= k {
            assert(!is_key_line(line));
            assert(body.take(n - 1).push(line) =~= body.take(n));
        } else if n == k + 1 {
            assert(is_key_line(line));
            assert(body.subrange(k, n).drop_last() =~= Seq::<Seq<char>>::empty());
            assert(body.subrange(k, n).last() == line);
            assert(fields_of(Seq::<Seq<char>>::empty()) == no_fields());
            assert(fields_of(body.subrange(k, n)) == spec_apply(no_fields(), line));
        } else if n <= j {
            assert(!is_features_line(line));
            assert(body.subrange(k, n).drop_last() =~= body.subrange(k, n - 1));
            assert(body.subrange(k, n).last() == line);
            assert(fields_of(body.subrange(k, n)) == spec_apply(
                fields_of(body.subrange(k, n - 1)),
                line,
            ));
        } else if n == j + 1 {
            assert(is_features_line(line));
            assert(body.subrange(j + 1, n) =~= Seq::<Seq<char>>::empty());
        } else {
            assert(body.subrange(j + 1, n).drop_last() =~= body.subrange(j + 1, n - 1));
            assert(body.subrange(j + 1, n).last() == line);
        }
    }
}

/// What the parser has gathered after all the lines after the header: the
/// description is the lines before the first field line; the fields come
/// from the lines from that one up to the `features:` line; the features are
/// the feature lines after it.
pub proof fn law_run_layout(name: Seq<char>, keywords: Seq<Seq<char>>, body: Seq<Seq<char>>)
    ensures
        ({
            let p = spec_run(initial_progress(name, keywords), body).parser;
            let k = fields_start(body) as int;
            let j = features_start(body) as int;
            &&& p.name == name
            &&& p.keywords == keywords
            &&& p.description == body.take(k)
            &&& p.fields == fields_of(body.subrange(k, j))
            &&& p.features == features_of(body.subrange(if j < body.len() { j + 1 } else { j }, body.len() as int))
        }),
{
    let start = initial_progress(name, keywords);
    let k = fields_start(body) as int;
    let j = features_start(body) as int;
    lemma_first_from(body, 0, |l: Seq<char>| is_key_line(l));
    if k < body.len() {
        lemma_first_from(body, (k + 1) as nat, |l: Seq<char>| is_features_line(l));
    }
    lemma_run_prefix(start, body, body.len() as int);
    assert(body.take(body.len() as int) =~= body);
    if k == body.len() {
        assert(body.subrange(k, j) =~= Seq::<Seq<char>>::empty());
        assert(body.subrange(k, j).len() == 0);
        assert(body.subrange(j, body.len() as int) =~= Seq::<Seq<char>>::empty());
    } else if j == body.len() {
        assert(body.subrange(j, body.len() as int) =~= Seq::<Seq<char>>::empty());
    }
}

/// `parse`, read through the layout: the header gives the name and
/// keywords; the lines before the first field line are the description,
/// joined with `'\n'`; the lines from that one up to the `features:` line set
/// the fields; the feature lines after it are the features.
pub proof fn law_parse_layout(input: Seq<char>)
    requires
        lines(input).len() > 0,
        spec_header(lines(input)[0]) is Ok,
    ensures
        ({
            let body = lines(input).drop_first();
            let k = fields_start(body) as int;
            let j = features_start(body) as int;
            let (name, keywords) = spec_header(lines(input)[0])->Ok_0;
            spec_parse(input) == spec_finish(
                ParserView {
                    name,
                    keywords,
                    description: body.take(k),
                    fields: fields_of(body.subrange(k, j)),
                    features: features_of(body.subrange(if j < body.len() { j + 1 } else { j }, body.len() as int)),
                },
            )
        }),
{
    let body = lines(input).drop_first();
    let (name, keywords) = spec_header(lines(input)[0])->Ok_0;
    law_run_layout(name, keywords, body);
}

/// `b` is not a prefix of any text that begins with `a`, where the two
/// differ at position `i`.
proof fn lemma_differs_at(a: Seq<char>, b: Seq<char>, v: Seq<char>, i: int)
    requires
        0 <= i < a.len(),
        i < b.len(),
        a[i] != b[i],
    ensures
        !has_prefix(a + v, b),
{
    if has_prefix(a + v, b) {
        assert((a + v).subrange(0, b.len() as int)[i] == (a + v)[i]);
    }
}

/// A field line sets its field to its trimmed value and leaves the others
/// as they were.
pub proof fn law_apply_sets_field(f: RawFieldsView, v: Seq<char>)
    ensures
        spec_apply(f, "version:"@ + v) == (RawFieldsView { version: Some(trim(v)), ..f }),
        spec_apply(f, "license:"@ + v) == (RawFieldsView { license: Some(trim(v)), ..f }),
        spec_apply(f, "rust-version:"@ + v) == (RawFieldsView { rust_version: Some(trim(v)), ..f }),
        spec_apply(f, "documentation:"@ + v) == (RawFieldsView { documentation: Some(trim(v)), ..f }),
        spec_apply(f, "homepage:"@ + v) == (RawFieldsView { homepage: Some(trim(v)), ..f }),
        spec_apply(f, "repository:"@ + v) == (RawFieldsView { repository: Some(trim(v)), ..f }),
        spec_apply(f, "crates.io:"@ + v) == (RawFieldsView { crates_io: Some(trim(v)), ..f }),
{
    reveal_strlit("version:");
    reveal_strlit("license:");
    reveal_strlit("rust-version:");
    reveal_strlit("documentation:");
    reveal_strlit("homepage:");
    reveal_strlit("repository:");
    reveal_strlit("crates.io:");
    let ver = "version:"@;
    let lic = "license:"@;
    let rus = "rust-version:"@;
    let doc = "documentation:"@;
    let hom = "homepage:"@;
    let rep = "repository:"@;
    let cra = "crates.io:"@;
    law_strip_key_gives_value(ver, v);
    law_strip_key_gives_value(lic, v);
    law_strip_key_gives_value(rus, v);
    law_strip_key_gives_value(doc, v);
    law_strip_key_gives_value(hom, v);
    law_strip_key_gives_value(rep, v);
    law_strip_key_gives_value(cra, v);
    assert(ver[0] == 'v' && lic[0] == 'l' && rus[0] == 'r' && doc[0] == 'd' && hom[0] == 'h'
        && rep[0] == 'r' && cra[0] == 'c' && rus[1] == 'u' && rep[1] == 'e');
    assert(ver.len() == 8 && lic.len() == 8 && rus.len() == 13 && doc.len() == 14 && hom.len() == 9
        && rep.len() == 11 && cra.len() == 10);
    lemma_differs_at(lic, ver, v, 0);
    lemma_differs_at(rus, ver, v, 0);
    lemma_differs_at(rus, lic, v, 0);
    lemma_differs_at(doc, ver, v, 0);
    lemma_differs_at(doc, lic, v, 0);
    lemma_differs_at(doc, rus, v, 0);
    lemma_differs_at(hom, ver, v, 0);
    lemma_differs_at(hom, lic, v, 0);
    lemma_differs_at(hom, rus, v, 0);
    lemma_differs_at(hom, doc, v, 0);
    lemma_differs_at(rep, ver, v, 0);
    lemma_differs_at(rep, lic, v, 0);
    lemma_differs_at(rep, rus, v, 1);
    lemma_differs_at(rep, doc, v, 0);
    lemma_differs_at(rep, hom, v, 0);
    lemma_differs_at(cra, ver, v, 0);
    lemma_differs_at(cra, lic, v, 0);
    lemma_differs_at(cra, rus, v, 0);
    lemma_differs_at(cra, doc, v, 0);
    lemma_differs_at(cra, hom, v, 0);
    lemma_differs_at(cra, rep, v, 0);
}

// ── Feature lines ───────────────────────────────────────────────────────────

/// Entries joined with `", "` between each two, as `cargo info` lists a
/// feature's dependencies.
pub open spec fn join_entries(ds: Seq<Seq<char>>) -> Seq<char>
    decreases ds.len(),
{
    if ds.len() == 0 {
        seq![]
    } else if ds.len() == 1 {
        ds[0]
    } else {
        join_entries(ds.drop_last()) + seq![',', ' '] + ds.last()
    }
}

/// The line that `cargo info` prints for a feature:
/// ` +name = [dep, dep]` for a default feature, `  name = [dep, dep]` for
/// another.
pub open spec fn feature_line_text(is_default: bool, name: Seq<char>, deps: Seq<Seq<char>>) -> Seq<char> {
    seq![' ', if is_default { '+' } else { ' ' }] + name + seq![' ', '=', ' ', '['] + join_entries(deps)
        + seq![']']
}

/// A text with no whitespace in it.
pub open spec fn no_ws(s: Seq<char>) -> bool {
    forall|i: int| 0 <= i < s.len() ==> !is_ws(#[trigger] s[i])
}

/// A dependency entry as a feature line can carry it: not empty, equal to
/// itself trimmed, and holding no `','`.
pub open spec fn plain_entry(d: Seq<char>) -> bool {
    &&& d.len() > 0
    &&& trim(d) == d
    &&& forall|i: int| 0 <= i < d.len() ==> #[trigger] d[i] != ','
}

/// A name as a feature line can carry it: not empty, equal to itself
/// trimmed, and holding no `" = ["`.
pub open spec fn plain_name(name: Seq<char>) -> bool {
    &&& name.len() > 0
    &&& trim(name) == name
    &&& forall|i: int| !occurs_at(name, " = ["@, i)
}

proof fn lemma_trim_after_space(d: Seq<char>)
    ensures
        trim(seq![' '] + d) == trim(d),
{
    let sd = seq![' '] + d;
    assert(sd.drop_first() =~= d);
    assert(sd[0] == ' ');
    assert(is_ws(' '));
    assert(trim_start(sd) == trim_start(d));
}

proof fn lemma_pieces_from_no_sep(y: Seq<char>, sep: char, cur: Seq<char>)
    requires
        forall|i: int| 0 <= i < y.len() ==> #[trigger] y[i] != sep,
    ensures
        pieces_from(y, sep, cur) == seq![cur + y],
    decreases y.len(),
{
    if y.len() > 0 {
        assert forall|i: int| 0 <= i < y.drop_first().len() implies #[trigger] y.drop_first()[i]
            != sep by {
            assert(y.drop_first()[i] == y[i + 1]);
        }
        lemma_pieces_from_no_sep(y.drop_first(), sep, cur.push(y[0]));
        assert(cur.push(y[0]) + y.drop_first() =~= cur + y);
    } else {
        assert(cur + y =~= cur);
    }
}

proof fn lemma_pieces_from_split(x: Seq<char>, y: Seq<char>, sep: char, cur: Seq<char>)
    ensures
        pieces_from(x + seq![sep] + y, sep, cur) == pieces_from(x, sep, cur) + pieces(y, sep),
    decreases x.len(),
{
    let z = x + seq![sep] + y;
    if x.len() == 0 {
        assert(z[0] == sep);
        assert(z.drop_first() =~= y);
        assert(pieces_from(x, sep, cur) == seq![cur]);
    } else {
        assert(z[0] == x[0]);
        assert(z.drop_first() =~= x.drop_first() + seq![sep] + y);
        if x[0] == sep {
            lemma_pieces_from_split(x.drop_first(), y, sep, seq![]);
            assert(seq![cur] + (pieces_from(x.drop_first(), sep, seq![]) + pieces(y, sep)) =~= (
            seq![cur] + pieces_from(x.drop_first(), sep, seq![])) + pieces(y, sep));
        } else {
            lemma_pieces_from_split(x.drop_first(), y, sep, cur.push(x[0]));
        }
    }
}

proof fn lemma_deps_of_join(ds: Seq<Seq<char>>)
    requires
        forall|i: int| 0 <= i < ds.len() ==> plain_entry(#[trigger] ds[i]),
    ensures
        deps_of(join_entries(ds)) == ds,
    decreases ds.len(),
{
    if ds.len() == 0 {
        lemma_pieces_from_no_sep(Seq::<char>::empty(), ',', seq![]);
        let e = Seq::<char>::empty();
        assert(e + e =~= e);
        assert(pieces(e, ',') == seq![e]);
        assert(seq![e].drop_last() =~= Seq::<Seq<char>>::empty());
        assert(trim(e).len() == 0);
        assert(nonempty_trimmed(seq![e]) == nonempty_trimmed(Seq::<Seq<char>>::empty()));
        assert(join_entries(ds) == e);
        assert(deps_of(join_entries(ds)) =~= ds);
    } else if ds.len() == 1 {
        let d = ds[0];
        assert(plain_entry(d));
        lemma_pieces_from_no_sep(d, ',', seq![]);
        assert(Seq::<char>::empty() + d =~= d);
        assert(seq![d].drop_last() =~= Seq::<Seq<char>>::empty());
        assert(pieces(d, ',') == seq![d]);
        assert(join_entries(ds) == d);
        assert(nonempty_trimmed(seq![d]) == nonempty_trimmed(Seq::<Seq<char>>::empty()).push(d));
        assert(deps_of(join_entries(ds)) =~= ds);
    } else {
        let prev = ds.drop_last();
        let d = ds.last();
        assert(plain_entry(d));
        assert forall|i: int| 0 <= i < prev.len() implies plain_entry(#[trigger] prev[i]) by {
            assert(prev[i] == ds[i]);
        }
        lemma_deps_of_join(prev);
        let jp = join_entries(prev);
        let tail = seq![' '] + d;
        assert(join_entries(ds) =~= jp + seq![','] + tail);
        lemma_pieces_from_split(jp, tail, ',', seq![]);
        assert forall|i: int| 0 <= i < tail.len() implies #[trigger] tail[i] != ',' by {
            if i > 0 {
                assert(tail[i] == d[i - 1]);
            }
        }
        lemma_pieces_from_no_sep(tail, ',', seq![]);
        assert(Seq::<char>::empty() + tail =~= tail);
        let ps = pieces(jp, ',');
        assert(pieces(join_entries(ds), ',') == ps + seq![tail]);
        assert((ps + seq![tail]).drop_last() =~= ps);
        lemma_trim_after_space(d);
        assert(deps_of(join_entries(ds)) =~= prev.push(d));
        assert(prev.push(d) =~= ds);
    }
}

/// A feature line gives back the feature it prints: for a plain name and
/// plain dependency entries, parsing the line that `cargo info` prints for
/// them yields exactly that feature.
pub proof fn law_feature_line_round_trip(is_default: bool, name: Seq<char>, deps: Seq<Seq<char>>)
    requires
        plain_name(name),
        forall|i: int| 0 <= i < deps.len() ==> plain_entry(#[trigger] deps[i]),
    ensures
        spec_feature(feature_line_text(is_default, name, deps)) == Some(
            FeatureView { is_default, name, dependencies: deps },
        ),
{
    reveal_strlit(" = [");
    let pat = " = ["@;
    assert(pat =~= seq![' ', '=', ' ', '[']);
    let line = feature_line_text(is_default, name, deps);
    let jd = join_entries(deps);
    lemma_deps_of_join(deps);
    let rest = line.subrange(2, line.len() as int);
    assert(rest =~= name + pat + jd + seq![']']);
    let n = name.len();
    // The separator does not occur before the end of the name: not inside
    // it, and not across its end, since no proper prefix of `" = ["` is
    // also a suffix of it.
    assert forall|i: nat| i < n implies !occurs_at(rest, pat, i as int) by {
        if occurs_at(rest, pat, i as int) {
            let w = rest.subrange(i as int, (i + 4) as int);
            assert(w =~= pat);
            if i + 4 <= n {
                assert(name.subrange(i as int, (i + 4) as int) =~= w);
                assert(occurs_at(name, pat, i as int));
            } else if i + 1 == n {
                assert(w[1] == rest[n as int]);
                assert(rest[n as int] == ' ');
            } else if i + 2 == n {
                assert(w[3] == rest[(n + 1) as int]);
                assert(rest[(n + 1) as int] == '=');
            } else {
                assert(i + 3 == n);
                assert(w[3] == rest[n as int]);
                assert(rest[n as int] == ' ');
            }
        }
    }
    assert(occurs_at(rest, pat, n as int)) by {
        assert(rest.subrange(n as int, (n + pat.len()) as int) =~= pat);
    }
    lemma_find_from_reaches(rest, pat, 0, n);
    assert(find(rest, pat) == Some(n as int));
    assert(rest.subrange(0, n as int) =~= name);
    let after = rest.subrange((n + pat.len()) as int, rest.len() as int);
    assert(after =~= jd + seq![']']);
    assert(after.last() == ']');
    assert(rfind(after, ']') == Some(jd.len() as int));
    assert(after.subrange(0, jd.len() as int) =~= jd);
}

proof fn lemma_find_from_reaches(s: Seq<char>, pat: Seq<char>, i: nat, n: nat)
    requires
        i <= n,
        n + pat.len() <= s.len(),
        occurs_at(s, pat, n as int),
        forall|t: nat| i <= t < n ==> !occurs_at(s, pat, t as int),
    ensures
        find_from(s, pat, i) == Some(n as int),
    decreases n - i,
{
    if i < n {
        lemma_find_from_reaches(s, pat, i + 1, n);
    }
}

// ── Header lines ────────────────────────────────────────────────────────────

/// The first line that `cargo info` prints: the name, then ` #keyword` for
/// each keyword.
pub open spec fn header_text(name: Seq<char>, keywords: Seq<Seq<char>>) -> Seq<char>
    decreases keywords.len(),
{
    if keywords.len() == 0 {
        name
    } else {
        header_text(name, keywords.drop_last()) + seq![' ', '#'] + keywords.last()
    }
}

proof fn lemma_words_from_split(x: Seq<char>, y: Seq<char>, cur: Seq<char>)
    ensures
        words_from(x + seq![' '] + y, cur) == words_from(x, cur) + words(y),
    decreases x.len(),
{
    let z = x + seq![' '] + y;
    assert(is_ws(' '));
    if x.len() == 0 {
        assert(z[0] == ' ');
        assert(z.drop_first() =~= y);
        if cur.len() == 0 {
            assert(Seq::<Seq<char>>::empty() + words(y) =~= words(y));
        }
    } else {
        assert(z[0] == x[0]);
        assert(z.drop_first() =~= x.drop_first() + seq![' '] + y);
        if is_ws(x[0]) {
            lemma_words_from_split(x.drop_first(), y, seq![]);
            let head: Seq<Seq<char>> = if cur.len() == 0 {
                seq![]
            } else {
                seq![cur]
            };
            assert(head + (words_from(x.drop_first(), seq![]) + words(y)) =~= (head + words_from(
                x.drop_first(),
                seq![],
            )) + words(y));
        } else {
            lemma_words_from_split(x.drop_first(), y, cur.push(x[0]));
        }
    }
}

proof fn lemma_words_from_no_ws(y: Seq<char>, cur: Seq<char>)
    requires
        no_ws(y),
        cur.len() + y.len() > 0,
    ensures
        words_from(y, cur) == seq![cur + y],
    decreases y.len(),
{
    if y.len() > 0 {
        assert(no_ws(y.drop_first())) by {
            assert forall|i: int| 0 <= i < y.drop_first().len() implies !is_ws(
                #[trigger] y.drop_first()[i],
            ) by {
                assert(y.drop_first()[i] == y[i + 1]);
            }
        }
        assert(!is_ws(y[0]));
        lemma_words_from_no_ws(y.drop_first(), cur.push(y[0]));
        assert(cur.push(y[0]) + y.drop_first() =~= cur + y);
    } else {
        assert(cur + y =~= cur);
    }
}

/// The words of a header: the name, then each keyword with its `'#'`.
proof fn lemma_header_words(name: Seq<char>, keywords: Seq<Seq<char>>)
    requires
        name.len() > 0,
        no_ws(name),
        forall|i: int| 0 <= i < keywords.len() ==> no_ws(#[trigger] keywords[i]),
    ensures
        words(header_text(name, keywords)).len() == keywords.len() + 1,
        words(header_text(name, keywords))[0] == name,
        forall|i: int|
            0 <= i < keywords.len() ==> #[trigger] words(header_text(name, keywords))[i + 1]
                == seq!['#'] + keywords[i],
    decreases keywords.len(),
{
    if keywords.len() == 0 {
        lemma_words_from_no_ws(name, seq![]);
        assert(Seq::<char>::empty() + name =~= name);
    } else {
        let prev = keywords.drop_last();
        assert forall|i: int| 0 <= i < prev.len() implies no_ws(#[trigger] prev[i]) by {
            assert(prev[i] == keywords[i]);
        }
        lemma_header_words(name, prev);
        let h = header_text(name, prev);
        let k = keywords.last();
        let tag = seq!['#'] + k;
        assert(header_text(name, keywords) =~= h + seq![' '] + tag);
        lemma_words_from_split(h, tag, seq![]);
        assert(no_ws(k));
        assert(no_ws(tag)) by {
            assert forall|i: int| 0 <= i < tag.len() implies !is_ws(#[trigger] tag[i]) by {
                if i > 0 {
                    assert(tag[i] == k[i - 1]);
                }
            }
        }
        lemma_words_from_no_ws(tag, seq![]);
        assert(Seq::<char>::empty() + tag =~= tag);
        assert forall|i: int| 0 <= i < keywords.len() implies #[trigger] words(
            header_text(name, keywords),
        )[i + 1] == seq!['#'] + keywords[i] by {
            if i < prev.len() {
                assert(keywords[i] == prev[i]);
            }
        }
    }
}

proof fn lemma_hash_tags_of(ws: Seq<Seq<char>>, keywords: Seq<Seq<char>>)
    requires
        ws.len() == keywords.len(),
        forall|i: int| 0 <= i < ws.len() ==> #[trigger] ws[i] == seq!['#'] + keywords[i],
    ensures
        hash_tags(ws) == keywords,
    decreases ws.len(),
{
    if ws.len() > 0 {
        let w = ws.last();
        assert(w == seq!['#'] + keywords.last());
        lemma_hash_tags_of(ws.drop_last(), keywords.drop_last());
        assert(w.drop_first() =~= keywords.last());
        assert(keywords.drop_last().push(keywords.last()) =~= keywords);
    } else {
        assert(keywords =~= Seq::<Seq<char>>::empty());
    }
}

/// A header line gives back the name and keywords it prints: for a name and
/// keywords without whitespace, parsing the line that `cargo info` prints
/// for them yields exactly them.
pub proof fn law_header_round_trip(name: Seq<char>, keywords: Seq<Seq<char>>)
    requires
        name.len() > 0,
        no_ws(name),
        forall|i: int| 0 <= i < keywords.len() ==> no_ws(#[trigger] keywords[i]),
    ensures
        spec_header(header_text(name, keywords)) == Ok::<
            (Seq<char>, Seq<Seq<char>>),
            ParseErrorView,
        >((name, keywords)),
{
    lemma_header_words(name, keywords);
    let ws = words(header_text(name, keywords));
    assert forall|i: int| 0 <= i < ws.drop_first().len() implies #[trigger] ws.drop_first()[i]
        == seq!['#'] + keywords[i] by {
        assert(ws.drop_first()[i] == ws[i + 1]);
    }
    lemma_hash_tags_of(ws.drop_first(), keywords);
}

// ── Fields read back ────────────────────────────────────────────────────────

/// The value of the last line among `ls` that starts with `key`: its rest
/// after `key`, trimmed; `None` if no line starts with `key`.
pub open spec fn last_value(ls: Seq<Seq<char>>, key: Seq<char>) -> Option<Seq<char>>
    decreases ls.len(),
{
    if ls.len() == 0 {
        None
    } else if spec_strip_key(ls.last(), key) is Some {
        spec_strip_key(ls.last(), key)
    } else {
        last_value(ls.drop_last(), key)
    }
}

/// No line starts with two labels that differ at position `i`.
proof fn lemma_one_label(l: Seq<char>, a: Seq<char>, b: Seq<char>, i: int)
    requires
        0 <= i < a.len(),
        i < b.len(),
        a[i] != b[i],
    ensures
        !(has_prefix(l, a) && has_prefix(l, b)),
{
    if has_prefix(l, a) && has_prefix(l, b) {
        assert(l.subrange(0, a.len() as int)[i] == l[i]);
        assert(l.subrange(0, b.len() as int)[i] == l[i]);
    }
}

/// The labels of the fields start with different characters, but for
/// `rust-version:` and `repository:`, which differ at their second.
proof fn lemma_labels_exclusive(l: Seq<char>)
    ensures
        !(has_prefix(l, "license:"@) && has_prefix(l, "version:"@)),
        !(has_prefix(l, "rust-version:"@) && has_prefix(l, "version:"@)),
        !(has_prefix(l, "rust-version:"@) && has_prefix(l, "license:"@)),
        !(has_prefix(l, "documentation:"@) && has_prefix(l, "version:"@)),
        !(has_prefix(l, "documentation:"@) && has_prefix(l, "license:"@)),
        !(has_prefix(l, "documentation:"@) && has_prefix(l, "rust-version:"@)),
        !(has_prefix(l, "homepage:"@) && has_prefix(l, "version:"@)),
        !(has_prefix(l, "homepage:"@) && has_prefix(l, "license:"@)),
        !(has_prefix(l, "homepage:"@) && has_prefix(l, "rust-version:"@)),
        !(has_prefix(l, "homepage:"@) && has_prefix(l, "documentation:"@)),
        !(has_prefix(l, "repository:"@) && has_prefix(l, "version:"@)),
        !(has_prefix(l, "repository:"@) && has_prefix(l, "license:"@)),
        !(has_prefix(l, "repository:"@) && has_prefix(l, "rust-version:"@)),
        !(has_prefix(l, "repository:"@) && has_prefix(l, "documentation:"@)),
        !(has_prefix(l, "repository:"@) && has_prefix(l, "homepage:"@)),
        !(has_prefix(l, "crates.io:"@) && has_prefix(l, "version:"@)),
        !(has_prefix(l, "crates.io:"@) && has_prefix(l, "license:"@)),
        !(has_prefix(l, "crates.io:"@) && has_prefix(l, "rust-version:"@)),
        !(has_prefix(l, "crates.io:"@) && has_prefix(l, "documentation:"@)),
        !(has_prefix(l, "crates.io:"@) && has_prefix(l, "homepage:"@)),
        !(has_prefix(l, "crates.io:"@) && has_prefix(l, "repository:"@)),
{
    reveal_strlit("version:");
    reveal_strlit("license:");
    reveal_strlit("rust-version:");
    reveal_strlit("documentation:");
    reveal_strlit("homepage:");
    reveal_strlit("repository:");
    reveal_strlit("crates.io:");
    let ver = "version:"@;
    let lic = "license:"@;
    let rus = "rust-version:"@;
    let doc = "documentation:"@;
    let hom = "homepage:"@;
    let rep = "repository:"@;
    let cra = "crates.io:"@;
    assert(ver[0] == 'v' && lic[0] == 'l' && rus[0] == 'r' && doc[0] == 'd' && hom[0] == 'h'
        && rep[0] == 'r' && cra[0] == 'c' && rus[1] == 'u' && rep[1] == 'e');
    lemma_one_label(l, lic, ver, 0);
    lemma_one_label(l, rus, ver, 0);
    lemma_one_label(l, rus, lic, 0);
    lemma_one_label(l, doc, ver, 0);
    lemma_one_label(l, doc, lic, 0);
    lemma_one_label(l, doc, rus, 0);
    lemma_one_label(l, hom, ver, 0);
    lemma_one_label(l, hom, lic, 0);
    lemma_one_label(l, hom, rus, 0);
    lemma_one_label(l, hom, doc, 0);
    lemma_one_label(l, rep, ver, 0);
    lemma_one_label(l, rep, lic, 0);
    lemma_one_label(l, rep, rus, 1);
    lemma_one_label(l, rep, doc, 0);
    lemma_one_label(l, rep, hom, 0);
    lemma_one_label(l, cra, ver, 0);
    lemma_one_label(l, cra, lic, 0);
    lemma_one_label(l, cra, rus, 0);
    lemma_one_label(l, cra, doc, 0);
    lemma_one_label(l, cra, hom, 0);
    lemma_one_label(l, cra, rep, 0);
}

/// Each field that lines set is the value of the last line with its label:
/// a later line with the same label overrides an earlier one, and a line
/// with another label leaves it as it is.
pub proof fn law_fields_are_last_values(ls: Seq<Seq<char>>)
    ensures
        fields_of(ls).version == last_value(ls, "version:"@),
        fields_of(ls).license == last_value(ls, "license:"@),
        fields_of(ls).rust_version == last_value(ls, "rust-version:"@),
        fields_of(ls).documentation == last_value(ls, "documentation:"@),
        fields_of(ls).homepage == last_value(ls, "homepage:"@),
        fields_of(ls).repository == last_value(ls, "repository:"@),
        fields_of(ls).crates_io == last_value(ls, "crates.io:"@),
    decreases ls.len(),
{
    if ls.len() > 0 {
        law_fields_are_last_values(ls.drop_last());
        lemma_labels_exclusive(ls.last());
        assert(fields_of(ls) == spec_apply(fields_of(ls.drop_last()), ls.last()));
    }
}

/// The parser moves only forward through its phases: from the description
/// only to the fields, from the fields only to the features, and it never
/// leaves the features.
pub proof fn law_phases_move_forward(m: Progress, line: Seq<char>)
    ensures
        m.phase == Phase::Description ==> spec_step(m, line).phase != Phase::Features,
        m.phase == Phase::Fields ==> spec_step(m, line).phase != Phase::Description,
        m.phase == Phase::Features ==> spec_step(m, line).phase == Phase::Features,
        spec_step(m, line).parser.name == m.parser.name,
        spec_step(m, line).parser.keywords == m.parser.keywords,
{
}

/// `s` with every `'\n'` written as `"\r\n"`.
pub open spec fn with_crlf(s: Seq<char>) -> Seq<char>
    decreases s.len(),
{
    if s.len() == 0 {
        seq![]
    } else if s[0] == '\n' {
        seq!['\r', '\n'] + with_crlf(s.drop_first())
    } else {
        seq![s[0]] + with_crlf(s.drop_first())
    }
}

proof fn lemma_lines_from_crlf(x: Seq<char>, cur: Seq<char>)
    requires
        forall|i: int| 0 <= i < x.len() ==> #[trigger] x[i] != '\r',
        cur.len() == 0 || cur.last() != '\r',
    ensures
        lines_from(with_crlf(x), cur) == lines_from(x, cur),
    decreases x.len(),
{
    if x.len() == 0 {
        assert(with_crlf(x) =~= x);
    } else {
        let rest = x.drop_first();
        assert forall|i: int| 0 <= i < rest.len() implies #[trigger] rest[i] != '\r' by {
            assert(rest[i] == x[i + 1]);
        }
        let c = with_crlf(x);
        if x[0] == '\n' {
            let tail = seq!['\n'] + with_crlf(rest);
            assert(c[0] == '\r');
            assert(c.drop_first() =~= tail);
            assert(tail[0] == '\n');
            assert(tail.drop_first() =~= with_crlf(rest));
            assert(cur.push('\r').drop_last() =~= cur);
            assert(crate::text::strip_cr(cur.push('\r')) == cur);
            assert(crate::text::strip_cr(cur) == cur);
            lemma_lines_from_crlf(rest, seq![]);
            assert(lines_from(c, cur) == lines_from(tail, cur.push('\r')));
            assert(lines_from(tail, cur.push('\r')) == seq![cur] + lines_from(with_crlf(rest), seq![]));
            assert(lines_from(x, cur) == seq![cur] + lines_from(rest, seq![]));
        } else {
            assert(c[0] == x[0]);
            assert(c.drop_first() =~= with_crlf(rest));
            lemma_lines_from_crlf(rest, cur.push(x[0]));
            assert(lines_from(c, cur) == lines_from(with_crlf(rest), cur.push(x[0])));
        }
    }
}

/// Lines ended by `"\r\n"` are the same lines as ended by `'\n'`: for a
/// text without `'\r'`, writing each line feed as `"\r\n"` changes neither
/// its lines nor what `parse` gives.
pub proof fn law_crlf_parses_like_lf(input: Seq<char>)
    requires
        forall|i: int| 0 <= i < input.len() ==> #[trigger] input[i] != '\r',
    ensures
        lines(with_crlf(input)) == lines(input),
        spec_parse(with_crlf(input)) == spec_parse(input),
{
    lemma_lines_from_crlf(input, seq![]);
}

// ── Field labels ────────────────────────────────────────────────────────────

/// The labels that `cargo info` prints before its fields and its feature
/// list, each with its colon.
pub open spec fn field_labels() -> Seq<Seq<char>> {
    seq![
        "version:"@,
        "license:"@,
        "rust-version:"@,
        "documentation:"@,
        "homepage:"@,
        "repository:"@,
        "crates.io:"@,
        "features:"@,
    ]
}

proof fn lemma_prefix_iff_concat(l: Seq<char>, p: Seq<char>)
    ensures
        has_prefix(l, p) <==> exists|r: Seq<char>| l == p + r,
{
    if has_prefix(l, p) {
        let r = l.subrange(p.len() as int, l.len() as int);
        assert(l =~= p + r);
    }
    if exists|r: Seq<char>| l == p + r {
        let r = choose|r: Seq<char>| l == p + r;
        assert((p + r).subrange(0, p.len() as int) =~= p);
    }
}

/// A line is a field line exactly when it is one of the labels, colon
/// included, followed by anything; a line that starts with a label's word
/// but not with its colon (such as a wrapped description line beginning
/// "versions") is not one.
pub proof fn law_field_line_iff_labelled(l: Seq<char>)
    ensures
        is_key_line(l) <==> exists|i: int, r: Seq<char>|
            0 <= i < field_labels().len() && l == #[trigger] (field_labels()[i] + r),
{
    let ls = field_labels();
    assert(ls.len() == 8);
    assert forall|i: int| 0 <= i < 8 implies has_prefix(l, #[trigger] ls[i]) <==> exists|
        r: Seq<char>,
    | l == ls[i] + r by {
        lemma_prefix_iff_concat(l, ls[i]);
    }
    if is_key_line(l) {
        let i: int = if has_prefix(l, ls[0]) {
            0
        } else if has_prefix(l, ls[1]) {
            1
        } else if has_prefix(l, ls[2]) {
            2
        } else if has_prefix(l, ls[3]) {
            3
        } else if has_prefix(l, ls[4]) {
            4
        } else if has_prefix(l, ls[5]) {
            5
        } else if has_prefix(l, ls[6]) {
            6
        } else {
            7
        };
        assert(has_prefix(l, ls[i]));
        let r = choose|r: Seq<char>| l == ls[i] + r;
        assert(l == field_labels()[i] + r);
    }
    if exists|i: int, r: Seq<char>| 0 <= i < field_labels().len() && l == #[trigger] (field_labels()[i] + r) {
        let (i, r) = choose|i: int, r: Seq<char>|
            0 <= i < field_labels().len() && l == #[trigger] (field_labels()[i] + r);
        assert(has_prefix(l, ls[i]));
    }
}

// ── The result of a successful parse ────────────────────────────────────────

/// What `parse` gives, field by field. Let the body be the lines after the
/// header, the field lines those from the first labelled line up to the
/// next `features:` line, and the feature lines those after that.
/// - Without a `version:` field line the result is the missing-version
///   error; otherwise without a `license:` one, the missing-license error.
/// - Otherwise the result has the header's name and keywords; the lines
///   before the first labelled line, joined with `'\n'`, as description;
///   each field the trimmed value of the last field line with its label,
///   unchanged otherwise; and the features of every feature line, in order,
///   none left out.
pub proof fn law_parse_result(input: Seq<char>)
    requires
        lines(input).len() > 0,
        spec_header(lines(input)[0]) is Ok,
    ensures
        ({
            let body = lines(input).drop_first();
            let k = fields_start(body) as int;
            let j = features_start(body) as int;
            let fl = body.subrange(k, j);
            let feats = body.subrange(if j < body.len() { j + 1 } else { j }, body.len() as int);
            let (name, keywords) = spec_header(lines(input)[0])->Ok_0;
            &&& last_value(fl, "version:"@) is None ==> spec_parse(input) == Err::<
                crate::types::CrateInfoView,
                ParseErrorView,
            >(ParseErrorView::MissingField("version"@))
            &&& last_value(fl, "version:"@) is Some && last_value(fl, "license:"@) is None
                ==> spec_parse(input) == Err::<crate::types::CrateInfoView, ParseErrorView>(
                ParseErrorView::MissingField("license"@),
            )
            &&& last_value(fl, "version:"@) is Some && last_value(fl, "license:"@) is Some
                ==> spec_parse(input) is Ok
            &&& spec_parse(input) matches Ok(info) ==> {
                &&& info.name == name
                &&& info.keywords == keywords
                &&& info.description == join_lines(body.take(k))
                &&& Some(info.version) == last_value(fl, "version:"@)
                &&& Some(info.license) == last_value(fl, "license:"@)
                &&& info.rust_version == last_value(fl, "rust-version:"@)
                &&& info.documentation == last_value(fl, "documentation:"@)
                &&& info.homepage == last_value(fl, "homepage:"@)
                &&& info.repository == last_value(fl, "repository:"@)
                &&& info.crates_io == last_value(fl, "crates.io:"@)
                &&& info.features == features_of(feats)
            }
        }),
{
    let body = lines(input).drop_first();
    let k = fields_start(body) as int;
    let j = features_start(body) as int;
    law_parse_layout(input);
    law_fields_are_last_values(body.subrange(k, j));
}

// ── Padded feature lines ────────────────────────────────────────────────────

/// `k` spaces.
pub open spec fn spaces(k: nat) -> Seq<char> {
    Seq::new(k, |i: int| ' ')
}

/// The line that `cargo info` prints for a feature whose name it pads with
/// `k` spaces to line up the `=` signs.
pub open spec fn padded_feature_line_text(
    is_default: bool,
    name: Seq<char>,
    k: nat,
    deps: Seq<Seq<char>>,
) -> Seq<char> {
    seq![' ', if is_default { '+' } else { ' ' }] + name + spaces(k) + seq![' ', '=', ' ', '[']
        + join_entries(deps) + seq![']']
}

proof fn lemma_trim_start_len(s: Seq<char>)
    ensures
        trim_start(s).len() <= s.len(),
    decreases s.len(),
{
    if s.len() > 0 && is_ws(s[0]) {
        lemma_trim_start_len(s.drop_first());
    }
}

proof fn lemma_trim_end_len(s: Seq<char>)
    ensures
        trim_end(s).len() <= s.len(),
    decreases s.len(),
{
    if s.len() > 0 && is_ws(s.last()) {
        lemma_trim_end_len(s.drop_last());
    }
}

/// A text equal to itself trimmed starts and ends with non-whitespace.
proof fn lemma_trimmed_ends(d: Seq<char>)
    requires
        d.len() > 0,
        trim(d) == d,
    ensures
        !is_ws(d[0]),
        !is_ws(d.last()),
{
    if is_ws(d[0]) {
        lemma_trim_start_len(d.drop_first());
        lemma_trim_end_len(trim_start(d));
        assert(false);
    }
    assert(trim_start(d) == d);
    if is_ws(d.last()) {
        lemma_trim_end_len(d.drop_last());
        assert(false);
    }
}

proof fn lemma_trim_end_spaces(d: Seq<char>, k: nat)
    ensures
        trim_end(d + spaces(k)) == trim_end(d),
    decreases k,
{
    if k > 0 {
        let t = d + spaces(k);
        assert(t.last() == ' ');
        assert(is_ws(' '));
        assert(t.drop_last() =~= d + spaces((k - 1) as nat));
        lemma_trim_end_spaces(d, (k - 1) as nat);
    } else {
        assert(d + spaces(k) =~= d);
    }
}

/// Padding makes no difference: for a plain name, plain dependency entries
/// and any number of spaces after the name, the padded line that
/// `cargo info` prints parses to exactly that feature.
pub proof fn law_padded_feature_line_round_trip(
    is_default: bool,
    name: Seq<char>,
    k: nat,
    deps: Seq<Seq<char>>,
)
    requires
        plain_name(name),
        forall|i: int| 0 <= i < deps.len() ==> plain_entry(#[trigger] deps[i]),
    ensures
        spec_feature(padded_feature_line_text(is_default, name, k, deps)) == Some(
            FeatureView { is_default, name, dependencies: deps },
        ),
{
    reveal_strlit(" = [");
    let pat = " = ["@;
    assert(pat =~= seq![' ', '=', ' ', '[']);
    let line = padded_feature_line_text(is_default, name, k, deps);
    let jd = join_entries(deps);
    lemma_deps_of_join(deps);
    let n = name.len();
    let m = n + k;
    let rest = line.subrange(2, line.len() as int);
    assert(rest =~= name + spaces(k) + pat + jd + seq![']']);
    assert forall|i: int| n <= i < m implies rest[i] == ' ' by {
        assert(rest[i] == spaces(k)[i - n]);
    }
    // The separator first occurs after the padding: an earlier occurrence
    // would lie inside the name, or have its `'['` at a space or at the
    // `" = "` before the real one.
    assert forall|i: nat| i < m implies !occurs_at(rest, pat, i as int) by {
        if occurs_at(rest, pat, i as int) {
            let w = rest.subrange(i as int, (i + 4) as int);
            assert(w =~= pat);
            assert(w[3] == '[');
            assert(w[3] == rest[(i + 3) as int]);
            if i + 3 < n {
                assert(name.subrange(i as int, (i + 4) as int) =~= w);
                assert(occurs_at(name, pat, i as int));
            } else if i + 3 < m {
                assert(rest[(i + 3) as int] == ' ');
            } else {
                assert(rest[(i + 3) as int] == pat[i + 3 - m]);
            }
        }
    }
    assert(occurs_at(rest, pat, m as int)) by {
        assert(rest.subrange(m as int, (m + 4) as int) =~= pat);
    }
    lemma_find_from_reaches(rest, pat, 0, m);
    assert(find(rest, pat) == Some(m as int));
    // The padded name trims to the name.
    lemma_trimmed_ends(name);
    assert(rest.subrange(0, m as int) =~= name + spaces(k));
    assert((name + spaces(k))[0] == name[0]);
    assert(trim_start(name + spaces(k)) == name + spaces(k));
    lemma_trim_end_spaces(name, k);
    assert(trim_start(name) == name);
    assert(trim(rest.subrange(0, m as int)) == name);
    let after = rest.subrange((m + pat.len()) as int, rest.len() as int);
    assert(after =~= jd + seq![']']);
    assert(after.last() == ']');
    assert(rfind(after, ']') == Some(jd.len() as int));
    assert(after.subrange(0, jd.len() as int) =~= jd);
}

// ── Description lines read back ─────────────────────────────────────────────

/// A text without line breaks: no `'\n'` and no `'\r'`.
pub open spec fn single_line(s: Seq<char>) -> bool {
    forall|i: int| 0 <= i < s.len() ==> #[trigger] s[i] != '\n' && s[i] != '\r'
}

proof fn lemma_lines_from_line_then(x: Seq<char>, y: Seq<char>, cur: Seq<char>)
    requires
        forall|i: int| 0 <= i < x.len() ==> #[trigger] x[i] != '\n',
    ensures
        lines_from(x + seq!['\n'] + y, cur) == seq![crate::text::strip_cr(cur + x)] + lines(y),
    decreases x.len(),
{
    let z = x + seq!['\n'] + y;
    if x.len() == 0 {
        assert(z[0] == '\n');
        assert(z.drop_first() =~= y);
        assert(cur + x =~= cur);
    } else {
        assert(z[0] == x[0]);
        assert(z.drop_first() =~= x.drop_first() + seq!['\n'] + y);
        assert forall|i: int| 0 <= i < x.drop_first().len() implies #[trigger] x.drop_first()[i]
            != '\n' by {
            assert(x.drop_first()[i] == x[i + 1]);
        }
        lemma_lines_from_line_then(x.drop_first(), y, cur.push(x[0]));
        assert(cur.push(x[0]) + x.drop_first() =~= cur + x);
    }
}

proof fn lemma_join_front(parts: Seq<Seq<char>>)
    requires
        parts.len() >= 2,
    ensures
        join_lines(parts) == parts[0] + seq!['\n'] + join_lines(parts.drop_first()),
    decreases parts.len(),
{
    let nl = seq!['\n'];
    let dl = parts.drop_last();
    let df = parts.drop_first();
    assert(join_lines(parts) == join_lines(dl) + nl + parts.last());
    if parts.len() > 2 {
        lemma_join_front(dl);
        assert(dl.drop_first() =~= df.drop_last());
        assert(df.last() == parts.last());
        assert(dl[0] == parts[0]);
        assert(join_lines(df) == join_lines(df.drop_last()) + nl + df.last());
        assert(join_lines(parts) =~= parts[0] + nl + join_lines(df));
    } else {
        assert(dl =~= seq![parts[0]]);
        assert(df =~= seq![parts[1]]);
        assert(join_lines(dl) == parts[0]);
        assert(join_lines(df) == parts[1]);
    }
}

proof fn lemma_join_newline_lines(parts: Seq<Seq<char>>)
    requires
        parts.len() > 0,
        forall|i: int| 0 <= i < parts.len() ==> single_line(#[trigger] parts[i]),
    ensures
        lines(join_lines(parts) + seq!['\n']) == parts,
    decreases parts.len(),
{
    let p0 = parts[0];
    assert(single_line(p0));
    assert(crate::text::strip_cr(p0) == p0) by {
        if p0.len() > 0 {
            assert(p0[p0.len() - 1] != '\r');
        }
    }
    assert(Seq::<char>::empty() + p0 =~= p0);
    if parts.len() == 1 {
        lemma_lines_from_line_then(p0, Seq::<char>::empty(), seq![]);
        assert(p0 + seq!['\n'] + Seq::<char>::empty() =~= p0 + seq!['\n']);
        assert(lines(Seq::<char>::empty()) =~= Seq::<Seq<char>>::empty());
        assert(seq![p0] + Seq::<Seq<char>>::empty() =~= parts);
    } else {
        let rest = parts.drop_first();
        assert forall|i: int| 0 <= i < rest.len() implies single_line(#[trigger] rest[i]) by {
            assert(rest[i] == parts[i + 1]);
        }
        lemma_join_newline_lines(rest);
        lemma_join_front(parts);
        let y = join_lines(rest) + seq!['\n'];
        assert(join_lines(parts) + seq!['\n'] =~= p0 + seq!['\n'] + y);
        lemma_lines_from_line_then(p0, y, seq![]);
        assert(seq![p0] + rest =~= parts);
    }
}

proof fn lemma_join_last(parts: Seq<Seq<char>>)
    requires
        parts.len() > 0,
        parts.last().len() > 0,
    ensures
        join_lines(parts).len() > 0,
        join_lines(parts).last() == parts.last().last(),
{
}

/// The total length of the texts `parts`.
pub open spec fn total_len(parts: Seq<Seq<char>>) -> nat
    decreases parts.len(),
{
    if parts.len() == 0 {
        0
    } else {
        total_len(parts.drop_last()) + parts.last().len()
    }
}

/// Joining adds exactly one character between each two parts.
pub proof fn law_join_adds_one_separator(parts: Seq<Seq<char>>)
    requires
        parts.len() > 0,
    ensures
        join_lines(parts).len() == total_len(parts) + parts.len() - 1,
    decreases parts.len(),
{
    let dl = parts.drop_last();
    if parts.len() > 1 {
        law_join_adds_one_separator(dl);
        assert(join_lines(parts) == join_lines(dl) + seq!['\n'] + parts.last());
        assert(total_len(parts) == total_len(dl) + parts.last().len());
    } else {
        assert(dl =~= Seq::<Seq<char>>::empty());
        assert(total_len(dl) == 0);
        assert(total_len(parts) == parts[0].len());
        assert(join_lines(parts) == parts[0]);
    }
}

/// Description lines read back: joining lines without line breaks with
/// `'\n'`, the last one not empty, and splitting the result into lines gives
/// back exactly those lines, with one character added between each two.
pub proof fn law_joined_lines_read_back(parts: Seq<Seq<char>>)
    requires
        parts.len() > 0,
        parts.last().len() > 0,
        forall|i: int| 0 <= i < parts.len() ==> single_line(#[trigger] parts[i]),
    ensures
        lines(join_lines(parts)) == parts,
        join_lines(parts).len() == total_len(parts) + parts.len() - 1,
{
    law_join_adds_one_separator(parts);
    lemma_join_newline_lines(parts);
    lemma_join_last(parts);
    let last = parts.last();
    assert(single_line(parts[parts.len() - 1]));
    assert(last[last.len() - 1] != '\n' && last[last.len() - 1] != '\r');
    law_final_newline_optional(join_lines(parts));
    assert(join_lines(parts).push('\n') =~= join_lines(parts) + seq!['\n']);
}

} // verus!
