//! Rendering of collected samples into the Prometheus text exposition format.

use vstd::prelude::*;

use crate::text::{decimal_text, i64_text};

verus! {

broadcast use vstd::string::group_string_axioms;

/// ASCII letters `a..z` and `A..Z`.
pub open spec fn is_ascii_alpha(c: char) -> bool {
    ('a' <= c && c <= 'z') || ('A' <= c && c <= 'Z')
}

/// ASCII digits `0..9`.
pub open spec fn is_ascii_digit(c: char) -> bool {
    '0' <= c && c <= '9'
}

/// Whether a character may stay as it is in a metric or label name at the
/// given position: `_` and letters anywhere, digits anywhere but first.
pub open spec fn name_char_kept(c: char, first: bool) -> bool {
    c == '_' || is_ascii_alpha(c) || (is_ascii_digit(c) && !first)
}

/// A name with every character that is not allowed at its position
/// replaced by `_`; the result has as many characters as the input.
pub open spec fn sanitize(s: Seq<char>) -> Seq<char> {
    Seq::new(s.len(), |i: int| if name_char_kept(s[i], i == 0) { s[i] } else { '_' })
}

fn kept_in_name(c: char, first: bool) -> (res: bool)
    ensures
        res == name_char_kept(c, first),
{
    c == '_' || ('a' <= c && c <= 'z') || ('A' <= c && c <= 'Z') || ('0' <= c && c <= '9'
        && !first)
}

/// Converts an Oximeter timeseries name (`target:metric`) into a valid
/// Prometheus name: the `:` separator, any other character outside
/// `[a-zA-Z0-9_]` and a leading digit all become `_`.
pub fn sanitize_name(name: &str) -> (res: String)
    ensures
        res@ == sanitize(name@),
{
    let mut out = String::new();
    let mut first = true;
    for c in it: name.chars()
        invariant
            it.seq() == name@,
            first == (it.index() == 0),
            out@ == sanitize(name@.take(it.index() as int)),
    {
        let keep = kept_in_name(c, first);
        if keep {
            out.push(c);
        } else {
            out.push('_');
        }
        first = false;
    }
    out
}


/// How a label value is written: backslash, double quote and newline are
/// the only characters the exposition format asks to escape.
pub open spec fn escape_char(c: char) -> Seq<char> {
    if c == '\\' {
        seq!['\\', '\\']
    } else if c == '"' {
        seq!['\\', '"']
    } else if c == '\n' {
        seq!['\\', 'n']
    } else {
        seq![c]
    }
}

/// A label value with each of its characters escaped in turn.
pub open spec fn escape(s: Seq<char>) -> Seq<char>
    decreases s.len(),
{
    if s.len() == 0 {
        Seq::empty()
    } else {
        escape_char(s[0]) + escape(s.drop_first())
    }
}

/// Escaping a value with one more character appended escapes that character
/// after the rest.
pub proof fn lemma_escape_push(s: Seq<char>, c: char)
    ensures
        escape(s.push(c)) == escape(s) + escape_char(c),
    decreases s.len(),
{
    if s.len() == 0 {
        assert(s.push(c).drop_first() =~= Seq::<char>::empty());
        assert(escape(s.push(c).drop_first()) == Seq::<char>::empty());
        assert(escape(s) == Seq::<char>::empty());
        assert(escape(s.push(c)) =~= escape_char(c));
    } else {
        lemma_escape_push(s.drop_first(), c);
        assert(s.push(c).drop_first() =~= s.drop_first().push(c));
        assert(escape(s.push(c)) =~= escape(s) + escape_char(c));
    }
}

/// Escapes a label value per the Prometheus exposition format: backslash,
/// double quote and newline become `\\`, `\"` and `\n`; every other
/// character is kept.
pub fn escape_label_value(value: &str) -> (res: String)
    ensures
        res@ == escape(value@),
{
    let mut out = String::new();
    for c in it: value.chars()
        invariant
            it.seq() == value@,
            out@ == escape(value@.take(it.index() as int)),
    {
        proof {
            lemma_escape_push(value@.take(it.index() as int), c);
            assert(value@.take(it.index() + 1) =~= value@.take(it.index() as int).push(c));
        }
        if c == '\\' {
            out.push('\\');
            out.push('\\');
        } else if c == '"' {
            out.push('\\');
            out.push('"');
        } else if c == '\n' {
            out.push('\\');
            out.push('n');
        } else {
            out.push(c);
        }
    }
    proof {
        assert(value@.take(value@.len() as int) =~= value@);
    }
    out
}


/// The kind of a measurement's datum, one variant per Oximeter datum type.
#[derive(Clone, Copy, Debug, PartialEq, Eq, Structural)]
pub enum DatumKind {
    Bool,
    I8,
    U8,
    I16,
    U16,
    I32,
    U32,
    I64,
    U64,
    F32,
    F64,
    CumulativeI64,
    CumulativeU64,
    CumulativeF32,
    CumulativeF64,
    String,
    Bytes,
    HistogramI8,
    HistogramU8,
    HistogramI16,
    HistogramU16,
    HistogramI32,
    HistogramU32,
    HistogramI64,
    HistogramU64,
    HistogramF32,
    HistogramF64,
    Missing,
}

/// Datum kinds that carry a single scalar value: booleans, integers,
/// floats and their cumulative forms. Strings, byte blobs, histograms and
/// missing data have none.
pub open spec fn scalar_kind(k: DatumKind) -> bool {
    match k {
        DatumKind::String | DatumKind::Bytes | DatumKind::HistogramI8 | DatumKind::HistogramU8
        | DatumKind::HistogramI16 | DatumKind::HistogramU16 | DatumKind::HistogramI32
        | DatumKind::HistogramU32 | DatumKind::HistogramI64 | DatumKind::HistogramU64
        | DatumKind::HistogramF32 | DatumKind::HistogramF64 | DatumKind::Missing => false,
        _ => true,
    }
}

/// Datum kinds that are cumulative counters.
pub open spec fn counter_kind(k: DatumKind) -> bool {
    match k {
        DatumKind::CumulativeI64 | DatumKind::CumulativeU64 | DatumKind::CumulativeF32
        | DatumKind::CumulativeF64 => true,
        _ => false,
    }
}

/// Whether a datum has a single scalar value to expose (the samples of the
/// other kinds are skipped when rendering).
pub fn has_scalar_value(datum: &DatumKind) -> (res: bool)
    ensures
        res == scalar_kind(*datum),
{
    match datum {
        DatumKind::String | DatumKind::Bytes | DatumKind::HistogramI8 | DatumKind::HistogramU8
        | DatumKind::HistogramI16 | DatumKind::HistogramU16 | DatumKind::HistogramI32
        | DatumKind::HistogramU32 | DatumKind::HistogramI64 | DatumKind::HistogramU64
        | DatumKind::HistogramF32 | DatumKind::HistogramF64 | DatumKind::Missing => false,
        _ => true,
    }
}

/// Whether a datum is a cumulative counter (Prometheus `counter`) rather
/// than a gauge.
pub fn is_counter(datum: &DatumKind) -> (res: bool)
    ensures
        res == counter_kind(*datum),
{
    match datum {
        DatumKind::CumulativeI64 | DatumKind::CumulativeU64 | DatumKind::CumulativeF32
        | DatumKind::CumulativeF64 => true,
        _ => false,
    }
}

/// One field of a sample's target or metric, its value already in text.
pub struct Field {
    pub name: String,
    pub value: String,
}

impl View for Field {
    type V = (Seq<char>, Seq<char>);

    open spec fn view(&self) -> (Seq<char>, Seq<char>) {
        (self.name@, self.value@)
    }
}

impl Clone for Field {
    fn clone(&self) -> (res: Self)
        ensures
            res@ == self@,
    {
        Field { name: self.name.clone(), value: self.value.clone() }
    }
}

/// One collected sample: its timeseries name (`target:metric`), its fields,
/// the kind of its datum, the text of its scalar value (meaningful only for
/// kinds with one) and its measurement time in milliseconds.
pub struct Sample {
    pub timeseries_name: String,
    pub fields: Vec<Field>,
    pub datum: DatumKind,
    pub value: String,
    pub timestamp_ms: i64,
}

/// The mathematical value of a [`Sample`].
pub struct SampleView {
    pub timeseries_name: Seq<char>,
    pub fields: Seq<(Seq<char>, Seq<char>)>,
    pub datum: DatumKind,
    pub value: Seq<char>,
    pub timestamp_ms: i64,
}

/// The views of a sequence of fields.
pub open spec fn field_views(fs: Seq<Field>) -> Seq<(Seq<char>, Seq<char>)> {
    fs.map_values(|f: Field| f@)
}

impl View for Sample {
    type V = SampleView;

    open spec fn view(&self) -> SampleView {
        SampleView {
            timeseries_name: self.timeseries_name@,
            fields: field_views(self.fields@),
            datum: self.datum,
            value: self.value@,
            timestamp_ms: self.timestamp_ms,
        }
    }
}

impl Clone for Sample {
    fn clone(&self) -> (res: Self)
        ensures
            res@ == self@,
    {
        let fields = self.fields.clone();
        assert(field_views(fields@) =~= field_views(self.fields@));
        Sample {
            timeseries_name: self.timeseries_name.clone(),
            fields,
            datum: self.datum,
            value: self.value.clone(),
            timestamp_ms: self.timestamp_ms,
        }
    }
}

/// The views of a sequence of samples.
pub open spec fn sample_views(ss: Seq<Sample>) -> Seq<SampleView> {
    ss.map_values(|s: Sample| s@)
}

/// `name="value"` for one field, with the name sanitized and the value
/// escaped.
pub open spec fn label_pair(f: (Seq<char>, Seq<char>)) -> Seq<char> {
    sanitize(f.0) + seq!['=', '"'] + escape(f.1) + seq!['"']
}

/// The label pairs of a list of fields, separated by commas.
pub open spec fn label_list(fs: Seq<(Seq<char>, Seq<char>)>) -> Seq<char>
    decreases fs.len(),
{
    if fs.len() == 0 {
        Seq::empty()
    } else if fs.len() == 1 {
        label_pair(fs[0])
    } else {
        label_list(fs.drop_last()) + seq![','] + label_pair(fs.last())
    }
}

/// The label set of a sample: nothing when it has no fields, else the
/// label pairs in braces.
pub open spec fn labels_text(fs: Seq<(Seq<char>, Seq<char>)>) -> Seq<char> {
    if fs.len() == 0 {
        Seq::empty()
    } else {
        seq!['{'] + label_list(fs) + seq!['}']
    }
}

fn append_label_pair(out: &mut String, field: &Field)
    ensures
        final(out)@ == old(out)@ + label_pair(field@),
{
    let name = sanitize_name(field.name.as_str());
    let value = escape_label_value(field.value.as_str());
    out.append(name.as_str());
    out.push('=');
    out.push('"');
    out.append(value.as_str());
    out.push('"');
    proof {
        assert(final(out)@ =~= old(out)@ + label_pair(field@));
    }
}

/// Formats the fields of a sample as a Prometheus label set:
/// `{name="value",...}`, or nothing when there are no fields.
pub fn format_labels(fields: &[Field]) -> (res: String)
    ensures
        res@ == labels_text(field_views(fields@)),
{
    let mut out = String::new();
    if fields.len() == 0 {
        proof {
            assert(out@ =~= labels_text(field_views(fields@)));
        }
        return out;
    }
    let ghost fv = field_views(fields@);
    out.push('{');
    append_label_pair(&mut out, &fields[0]);
    proof {
        assert(fv.take(1) =~= seq![fv[0]]);
        assert(out@ =~= seq!['{'] + label_list(fv.take(1)));
    }
    let mut i: usize = 1;
    while i < fields.len()
        invariant
            1 <= i <= fields.len(),
            fv == field_views(fields@),
            out@ == seq!['{'] + label_list(fv.take(i as int)),
        decreases fields.len() - i,
    {
        out.push(',');
        append_label_pair(&mut out, &fields[i]);
        proof {
            assert(fv.take(i + 1).drop_last() =~= fv.take(i as int));
            assert(fv.take(i + 1).last() == fv[i as int]);
            assert(out@ =~= seq!['{'] + label_list(fv.take(i + 1)));
        }
        i = i + 1;
    }
    out.push('}');
    proof {
        assert(fv.take(fields.len() as int) =~= fv);
        assert(out@ =~= labels_text(field_views(fields@)));
    }
    out
}


/// The Prometheus name of a sample's timeseries.
pub open spec fn metric_name(s: SampleView) -> Seq<char> {
    sanitize(s.timeseries_name)
}

/// `counter` for cumulative data, `gauge` for every other kind.
pub open spec fn kind_word(k: DatumKind) -> Seq<char> {
    if counter_kind(k) {
        "counter"@
    } else {
        "gauge"@
    }
}

/// The `# TYPE <name> <kind>` line that declares a metric.
pub open spec fn type_line(s: SampleView) -> Seq<char> {
    "# TYPE "@ + metric_name(s) + seq![' '] + kind_word(s.datum) + seq!['\n']
}

/// The line of one sample: `<name><labels> <value> <timestamp>`.
pub open spec fn sample_line(s: SampleView) -> Seq<char> {
    metric_name(s) + labels_text(s.fields) + seq![' '] + s.value + seq![' '] + decimal_text(
        s.timestamp_ms as int,
    ) + seq!['\n']
}

/// Whether one of the first `n` samples has a scalar datum and the metric
/// name `name`.
pub open spec fn named_before(ss: Seq<SampleView>, n: int, name: Seq<char>) -> bool {
    exists|j: int| 0 <= j < n && scalar_kind(ss[j].datum) && #[trigger] metric_name(ss[j]) == name
}

/// Whether sample `i` declares the type of its metric: it is the first
/// rendered sample with that metric name.
pub open spec fn declares_type(ss: Seq<SampleView>, i: int) -> bool {
    scalar_kind(ss[i].datum) && !named_before(ss, i, metric_name(ss[i]))
}

/// What sample `i` contributes to the document: nothing when its datum has
/// no scalar value, else its line, preceded by the type declaration when it
/// is the first sample of its metric.
pub open spec fn sample_chunk(ss: Seq<SampleView>, i: int) -> Seq<char> {
    if !scalar_kind(ss[i].datum) {
        Seq::empty()
    } else if declares_type(ss, i) {
        type_line(ss[i]) + sample_line(ss[i])
    } else {
        sample_line(ss[i])
    }
}

/// The document made of the chunks of the first `n` samples, in order.
pub open spec fn exposition_prefix(ss: Seq<SampleView>, n: nat) -> Seq<char>
    decreases n,
{
    if n == 0 {
        Seq::empty()
    } else {
        exposition_prefix(ss, (n - 1) as nat) + sample_chunk(ss, n - 1)
    }
}

/// The exposition document of a batch of samples.
pub open spec fn exposition(ss: Seq<SampleView>) -> Seq<char> {
    exposition_prefix(ss, ss.len())
}

fn contains_name(typed: &Vec<String>, name: &String) -> (res: bool)
    ensures
        res == exists|k: int| 0 <= k < typed.len() && #[trigger] typed@[k]@ == name@,
{
    let mut k: usize = 0;
    while k < typed.len()
        invariant
            k <= typed.len(),
            forall|j: int| 0 <= j < k ==> #[trigger] typed@[j]@ != name@,
        decreases typed.len() - k,
    {
        if typed[k] == *name {
            return true;
        }
        k = k + 1;
    }
    false
}

fn append_type_line(body: &mut String, name: &String, counter: bool)
    ensures
        final(body)@ == old(body)@ + "# TYPE "@ + name@ + seq![' '] + (if counter {
            "counter"@
        } else {
            "gauge"@
        }) + seq!['\n'],
{
    body.append("# TYPE ");
    body.append(name.as_str());
    body.push(' ');
    if counter {
        body.append("counter");
    } else {
        body.append("gauge");
    }
    body.push('\n');
}

fn append_sample_line(body: &mut String, name: &String, sample: &Sample)
    requires
        name@ == metric_name(sample@),
    ensures
        final(body)@ == old(body)@ + sample_line(sample@),
{
    let labels = format_labels(sample.fields.as_slice());
    let timestamp = i64_text(sample.timestamp_ms);
    body.append(name.as_str());
    body.append(labels.as_str());
    body.push(' ');
    body.append(sample.value.as_str());
    body.push(' ');
    body.append(timestamp.as_str());
    body.push('\n');
    proof {
        assert(final(body)@ =~= old(body)@ + sample_line(sample@));
    }
}

/// Renders a batch of samples into one Prometheus exposition document.
///
/// Samples whose datum has no scalar value are skipped. `# TYPE` is emitted
/// once per metric name, before its first sample, as `counter` for
/// cumulative data and `gauge` otherwise. Each sample line carries its
/// measurement timestamp in milliseconds.
pub fn to_prometheus(samples: &[Sample]) -> (res: String)
    ensures
        res@ == exposition(sample_views(samples@)),
{
    let ghost ss = sample_views(samples@);
    let mut body = String::new();
    let mut typed: Vec<String> = Vec::new();
    let mut i: usize = 0;
    while i < samples.len()
        invariant
            i <= samples.len(),
            ss == sample_views(samples@),
            body@ == exposition_prefix(ss, i as nat),
            forall|k: int| 0 <= k < typed.len() ==> named_before(ss, i as int, #[trigger] typed@[k]@),
            forall|name: Seq<char>|
                named_before(ss, i as int, name) ==> exists|k: int|
                    0 <= k < typed.len() && #[trigger] typed@[k]@ == name,
        decreases samples.len() - i,
    {
        let sample = &samples[i];
        assert(ss[i as int] == sample@);
        let ghost old_typed = typed@;
        if has_scalar_value(&sample.datum) {
            let name = sanitize_name(sample.timeseries_name.as_str());
            let seen = contains_name(&typed, &name);
            proof {
                if seen {
                    let k = choose|k: int| 0 <= k < typed.len() && #[trigger] typed@[k]@ == name@;
                    assert(named_before(ss, i as int, typed@[k]@));
                }
            }
            assert(declares_type(ss, i as int) == !seen);
            let ghost before = body@;
            if !seen {
                append_type_line(&mut body, &name, is_counter(&sample.datum));
                typed.push(name.clone());
            }
            append_sample_line(&mut body, &name, sample);
            proof {
                assert(body@ =~= before + sample_chunk(ss, i as int));
                assert forall|n: Seq<char>| #[trigger] named_before(ss, i + 1, n) implies exists|k: int|
                    0 <= k < typed.len() && #[trigger] typed@[k]@ == n by {
                    let j = choose|j: int|
                        0 <= j < i + 1 && scalar_kind(ss[j].datum) && #[trigger] metric_name(ss[j])
                            == n;
                    if j < i {
                        assert(named_before(ss, i as int, n));
                        let k = choose|k: int| 0 <= k < old_typed.len() && #[trigger] old_typed[k]@ == n;
                        assert(typed@[k] == old_typed[k]);
                    } else if seen {
                        let k = choose|k: int| 0 <= k < old_typed.len() && #[trigger] old_typed[k]@ == name@;
                        assert(typed@[k] == old_typed[k]);
                    } else {
                        assert(typed@[typed.len() - 1]@ == n);
                    }
                }
                assert forall|k: int| 0 <= k < typed.len() implies named_before(ss, i + 1, #[trigger] typed@[k]@) by {
                    if k < old_typed.len() {
                        assert(typed@[k] == old_typed[k]);
                        assert(named_before(ss, i as int, old_typed[k]@));
                    } else {
                        assert(metric_name(ss[i as int]) == typed@[k]@);
                    }
                }
            }
        } else {
            proof {
                assert forall|n: Seq<char>| #[trigger] named_before(ss, i + 1, n) implies named_before(ss, i as int, n) by {
                    let j = choose|j: int|
                        0 <= j < i + 1 && scalar_kind(ss[j].datum) && #[trigger] metric_name(ss[j])
                            == n;
                    assert(j < i);
                }
                assert forall|k: int| 0 <= k < typed.len() implies named_before(ss, i + 1, #[trigger] typed@[k]@) by {
                    assert(named_before(ss, i as int, typed@[k]@));
                }
            }
        }
        i = i + 1;
    }
    body
}


/// A sanitized name is a valid Prometheus name of the same length: every
/// character is `_`, an ASCII letter, or an ASCII digit that is not first.
pub proof fn lemma_sanitized_name_is_valid(s: Seq<char>)
    ensures
        sanitize(s).len() == s.len(),
        forall|i: int| 0 <= i < s.len() ==> name_char_kept(#[trigger] sanitize(s)[i], i == 0),
{
}

/// Sanitizing is idempotent: a name that is already valid is left alone.
pub proof fn lemma_sanitize_idempotent(s: Seq<char>)
    ensures
        sanitize(sanitize(s)) == sanitize(s),
{
    assert(sanitize(sanitize(s)) =~= sanitize(s));
}

/// Reading an escaped label value back: `\n` stands for a newline and a
/// backslash followed by any other character for that character.
pub open spec fn unescape(t: Seq<char>) -> Seq<char>
    decreases t.len(),
{
    if t.len() == 0 {
        Seq::empty()
    } else if t[0] == '\\' && t.len() >= 2 {
        seq![if t[1] == 'n' { '\n' } else { t[1] }] + unescape(t.skip(2))
    } else {
        seq![t[0]] + unescape(t.drop_first())
    }
}

/// Escaping loses nothing: reading an escaped label value back gives the
/// original value.
pub proof fn lemma_escape_roundtrip(s: Seq<char>)
    ensures
        unescape(escape(s)) == s,
    decreases s.len(),
{
    if s.len() == 0 {
        assert(escape(s) == Seq::<char>::empty());
    } else {
        let rest = s.drop_first();
        lemma_escape_roundtrip(rest);
        let e = escape_char(s[0]);
        let t = escape(s);
        assert(t == e + escape(rest));
        if e.len() == 2 {
            assert(t.skip(2) =~= escape(rest));
        } else {
            assert(t.drop_first() =~= escape(rest));
        }
        assert(unescape(t) =~= s);
    }
}

/// An escaped label value holds no raw newline or unescaped quote: every
/// newline was written as `\n`, and every `"` comes right after a `\`.
pub proof fn lemma_escape_has_no_newline(s: Seq<char>)
    ensures
        forall|i: int| 0 <= i < escape(s).len() ==> #[trigger] escape(s)[i] != '\n',
        forall|i: int|
            0 <= i < escape(s).len() && #[trigger] escape(s)[i] == '"' ==> i > 0 && escape(s)[i
                - 1] == '\\',
    decreases s.len(),
{
    if s.len() > 0 {
        let rest = s.drop_first();
        lemma_escape_has_no_newline(rest);
        let e = escape_char(s[0]);
        assert(escape(s) == e + escape(rest));
        assert forall|i: int| 0 <= i < escape(s).len() implies #[trigger] escape(s)[i] != '\n' by {
            if i >= e.len() {
                assert(escape(s)[i] == escape(rest)[i - e.len()]);
            }
        }
        assert forall|i: int| 0 <= i < escape(s).len() && #[trigger] escape(s)[i] == '"' implies i
            > 0 && escape(s)[i - 1] == '\\' by {
            if i >= e.len() {
                assert(escape(s)[i] == escape(rest)[i - e.len()]);
                if i - e.len() > 0 {
                    assert(escape(s)[i - 1] == escape(rest)[i - 1 - e.len()]);
                } else {
                    assert(escape(rest)[0] == '"');
                    assert(false);
                }
            }
        }
    }
}

/// `# TYPE` is declared once per metric name: no two samples of one metric
/// both declare it, and every rendered sample follows the declaration of
/// its metric (made by itself or by an earlier sample).
pub proof fn lemma_type_declared_once(ss: Seq<SampleView>, i: int, j: int)
    requires
        0 <= i < ss.len(),
        0 <= j < ss.len(),
    ensures
        declares_type(ss, i) && declares_type(ss, j) && metric_name(ss[i]) == metric_name(ss[j])
            ==> i == j,
        scalar_kind(ss[i].datum) ==> exists|k: int|
            0 <= k <= i && declares_type(ss, k) && #[trigger] metric_name(ss[k]) == metric_name(
                ss[i],
            ),
    decreases i,
{
    if declares_type(ss, i) && declares_type(ss, j) && metric_name(ss[i]) == metric_name(ss[j]) {
        if i < j {
            assert(named_before(ss, j, metric_name(ss[j])));
        } else if j < i {
            assert(named_before(ss, i, metric_name(ss[i])));
        }
    }
    if scalar_kind(ss[i].datum) && !declares_type(ss, i) {
        let j0 = choose|j0: int|
            0 <= j0 < i && scalar_kind(ss[j0].datum) && #[trigger] metric_name(ss[j0])
                == metric_name(ss[i]);
        lemma_type_declared_once(ss, j0, j0);
        let k = choose|k: int|
            0 <= k <= j0 && declares_type(ss, k) && #[trigger] metric_name(ss[k]) == metric_name(
                ss[j0],
            );
        assert(0 <= k <= i && declares_type(ss, k) && metric_name(ss[k]) == metric_name(ss[i]));
    }
}


/// The samples among the first `n` whose datum has a scalar value, in order.
pub open spec fn rendered_samples(ss: Seq<SampleView>, n: nat) -> Seq<SampleView>
    decreases n,
{
    if n == 0 {
        Seq::empty()
    } else if scalar_kind(ss[n - 1].datum) {
        rendered_samples(ss, (n - 1) as nat).push(ss[n - 1])
    } else {
        rendered_samples(ss, (n - 1) as nat)
    }
}

proof fn lemma_named_before_step(s: Seq<SampleView>, n: int, name: Seq<char>)
    requires
        0 <= n < s.len(),
    ensures
        named_before(s, n + 1, name) == (named_before(s, n, name) || (scalar_kind(s[n].datum)
            && metric_name(s[n]) == name)),
{
    if named_before(s, n + 1, name) && !named_before(s, n, name) {
        let j = choose|j: int|
            0 <= j < n + 1 && scalar_kind(s[j].datum) && #[trigger] metric_name(s[j]) == name;
        assert(j == n);
    }
}

proof fn lemma_named_before_prefix(s1: Seq<SampleView>, s2: Seq<SampleView>, n: int, name: Seq<char>)
    requires
        0 <= n <= s1.len(),
        n <= s2.len(),
        forall|j: int| 0 <= j < n ==> s1[j] == s2[j],
    ensures
        named_before(s1, n, name) == named_before(s2, n, name),
{
    if named_before(s1, n, name) {
        let j = choose|j: int|
            0 <= j < n && scalar_kind(s1[j].datum) && #[trigger] metric_name(s1[j]) == name;
        assert(s2[j] == s1[j]);
    }
    if named_before(s2, n, name) {
        let j = choose|j: int|
            0 <= j < n && scalar_kind(s2[j].datum) && #[trigger] metric_name(s2[j]) == name;
        assert(s2[j] == s1[j]);
    }
}

proof fn lemma_exposition_prefix_stable(s1: Seq<SampleView>, s2: Seq<SampleView>, m: nat)
    requires
        m <= s1.len(),
        m <= s2.len(),
        forall|j: int| 0 <= j < m ==> s1[j] == s2[j],
    ensures
        exposition_prefix(s1, m) == exposition_prefix(s2, m),
    decreases m,
{
    if m > 0 {
        lemma_exposition_prefix_stable(s1, s2, (m - 1) as nat);
        lemma_named_before_prefix(s1, s2, m - 1, metric_name(s1[m - 1]));
        assert(sample_chunk(s1, m - 1) == sample_chunk(s2, m - 1));
    }
}

proof fn lemma_rendered_named_before(ss: Seq<SampleView>, n: nat, name: Seq<char>)
    requires
        n <= ss.len(),
    ensures
        named_before(ss, n as int, name) == named_before(
            rendered_samples(ss, n),
            rendered_samples(ss, n).len() as int,
            name,
        ),
        forall|j: int|
            0 <= j < rendered_samples(ss, n).len() ==> scalar_kind(
                #[trigger] rendered_samples(ss, n)[j].datum,
            ),
    decreases n,
{
    if n > 0 {
        let r = rendered_samples(ss, (n - 1) as nat);
        lemma_rendered_named_before(ss, (n - 1) as nat, name);
        lemma_named_before_step(ss, n - 1, name);
        if scalar_kind(ss[n - 1].datum) {
            let r2 = r.push(ss[n - 1]);
            lemma_named_before_step(r2, r.len() as int, name);
            lemma_named_before_prefix(r, r2, r.len() as int, name);
        }
    }
}

proof fn lemma_exposition_of_rendered(ss: Seq<SampleView>, n: nat)
    requires
        n <= ss.len(),
    ensures
        exposition_prefix(ss, n) == exposition(rendered_samples(ss, n)),
    decreases n,
{
    if n > 0 {
        let r = rendered_samples(ss, (n - 1) as nat);
        lemma_exposition_of_rendered(ss, (n - 1) as nat);
        if scalar_kind(ss[n - 1].datum) {
            let x = ss[n - 1];
            let r2 = r.push(x);
            lemma_exposition_prefix_stable(r, r2, r.len());
            lemma_named_before_prefix(r, r2, r.len() as int, metric_name(x));
            lemma_rendered_named_before(ss, (n - 1) as nat, metric_name(x));
            assert(r2[r.len() as int] == x);
            assert(sample_chunk(r2, r.len() as int) == sample_chunk(ss, n - 1));
            assert(exposition(r2) == exposition_prefix(r2, r.len()) + sample_chunk(r2, r.len() as int));
        }
    }
}

/// Samples without a scalar value (histograms, byte blobs, strings,
/// missing data) are skipped: the document is exactly the one rendered
/// from the other samples alone, type declarations included.
pub proof fn lemma_unrenderable_samples_skipped(ss: Seq<SampleView>)
    ensures
        exposition(ss) == exposition(rendered_samples(ss, ss.len())),
        forall|j: int|
            0 <= j < rendered_samples(ss, ss.len()).len() ==> scalar_kind(
                #[trigger] rendered_samples(ss, ss.len())[j].datum,
            ),
{
    lemma_exposition_of_rendered(ss, ss.len());
    lemma_rendered_named_before(ss, ss.len(), Seq::empty());
}


/// Escaping works character by character: escaping a concatenation is
/// concatenating the escaped parts.
pub proof fn lemma_escape_concat(a: Seq<char>, b: Seq<char>)
    ensures
        escape(a + b) == escape(a) + escape(b),
    decreases a.len(),
{
    if a.len() == 0 {
        assert(a + b =~= b);
        assert(escape(a) == Seq::<char>::empty());
        assert(escape(a) + escape(b) =~= escape(b));
    } else {
        lemma_escape_concat(a.drop_first(), b);
        assert((a + b).drop_first() =~= a.drop_first() + b);
        assert((a + b)[0] == a[0]);
        assert(escape(a + b) =~= escape(a) + escape(b));
    }
}

/// Only backslash, double quote and newline are escaped: a value holding
/// none of them is written exactly as it is.
pub proof fn lemma_escape_keeps_plain_text(s: Seq<char>)
    requires
        forall|i: int| 0 <= i < s.len() ==> #[trigger] s[i] != '\\' && s[i] != '"' && s[i] != '\n',
    ensures
        escape(s) == s,
    decreases s.len(),
{
    if s.len() > 0 {
        let rest = s.drop_first();
        assert forall|i: int| 0 <= i < rest.len() implies #[trigger] rest[i] != '\\' && rest[i]
            != '"' && rest[i] != '\n' by {
            assert(rest[i] == s[i + 1]);
        }
        lemma_escape_keeps_plain_text(rest);
        assert(escape(s) =~= s);
    }
}

/// The three escaped characters and how each is written.
pub proof fn lemma_escape_special_characters()
    ensures
        escape(seq!['\\']) == seq!['\\', '\\'],
        escape(seq!['"']) == seq!['\\', '"'],
        escape(seq!['\n']) == seq!['\\', 'n'],
{
    assert(seq!['\\'].drop_first() =~= Seq::<char>::empty());
    assert(seq!['"'].drop_first() =~= Seq::<char>::empty());
    assert(seq!['\n'].drop_first() =~= Seq::<char>::empty());
    assert(escape(Seq::<char>::empty()) == Seq::<char>::empty());
    assert(escape(seq!['\\']) =~= seq!['\\', '\\']);
    assert(escape(seq!['"']) =~= seq!['\\', '"']);
    assert(escape(seq!['\n']) =~= seq!['\\', 'n']);
}

/// A label set of one field is that field's pair in braces, and no fields
/// give no label set at all.
pub proof fn lemma_labels_single(f: (Seq<char>, Seq<char>))
    ensures
        labels_text(seq![f]) == seq!['{'] + label_pair(f) + seq!['}'],
        labels_text(Seq::<(Seq<char>, Seq<char>)>::empty()) == Seq::<char>::empty(),
{
    assert(seq![f][0] == f);
}

/// Adding a field to a non-empty label set adds one comma and that field's
/// pair before the closing brace: each pair is separated from the previous
/// one by exactly one comma, so `n` fields carry `n - 1` separators.
pub proof fn lemma_labels_push(fs: Seq<(Seq<char>, Seq<char>)>, f: (Seq<char>, Seq<char>))
    requires
        fs.len() >= 1,
    ensures
        labels_text(fs.push(f)) == labels_text(fs).drop_last() + seq![','] + label_pair(f) + seq![
            '}',
        ],
{
    assert(fs.push(f).drop_last() =~= fs);
    assert(fs.push(f).last() == f);
    assert(labels_text(fs).drop_last() =~= seq!['{'] + label_list(fs));
    assert(labels_text(fs.push(f)) =~= labels_text(fs).drop_last() + seq![','] + label_pair(f)
        + seq!['}']);
}

/// The kind word of a `# TYPE` line is `counter` for exactly the four
/// cumulative datum kinds and `gauge` for every other kind.
pub proof fn lemma_counter_exactly_cumulative(k: DatumKind)
    ensures
        kind_word(k) == if k == DatumKind::CumulativeI64 || k == DatumKind::CumulativeU64 || k
            == DatumKind::CumulativeF32 || k == DatumKind::CumulativeF64 {
            "counter"@
        } else {
            "gauge"@
        },
{
}

/// A batch of one sample with a scalar value renders as its type
/// declaration (`counter` exactly for the cumulative kinds) followed by its
/// line; one without a scalar value renders as nothing.
pub proof fn lemma_single_sample_document(s: SampleView)
    ensures
        scalar_kind(s.datum) ==> exposition(seq![s]) == "# TYPE "@ + sanitize(s.timeseries_name)
            + seq![' '] + (if s.datum == DatumKind::CumulativeI64 || s.datum
            == DatumKind::CumulativeU64 || s.datum == DatumKind::CumulativeF32 || s.datum
            == DatumKind::CumulativeF64 {
            "counter"@
        } else {
            "gauge"@
        }) + seq!['\n'] + sample_line(s),
        !scalar_kind(s.datum) ==> exposition(seq![s]) == Seq::<char>::empty(),
{
    let ss = seq![s];
    assert(ss[0] == s);
    assert(!named_before(ss, 0, metric_name(s)));
    assert(exposition_prefix(ss, 0) == Seq::<char>::empty());
    assert(exposition(ss) == exposition_prefix(ss, 0) + sample_chunk(ss, 0));
    if scalar_kind(s.datum) {
        assert(exposition(ss) =~= type_line(s) + sample_line(s));
    } else {
        assert(exposition(ss) =~= Seq::<char>::empty());
    }
}

} // verus!
