//! Laws of the parser, stated over the grammar and proved once for all
//! inputs.

use vstd::prelude::*;

use crate::grammar::frags_from;
use crate::grammar::index_of_from;
use crate::grammar::is_ident;
use crate::grammar::is_ident_char;
use crate::grammar::is_label_name;
use crate::grammar::is_label_name_char;
use crate::grammar::is_mantissa;
use crate::grammar::is_value;
use crate::grammar::labels_of_frags;
use crate::grammar::last_index_of;
use crate::grammar::lemma_index_of_from;
use crate::grammar::lemma_last_index_of;
use crate::grammar::spec_classify;
use crate::grammar::spec_frags;
use crate::grammar::LineShape;
use crate::document::chunks_from;
use crate::document::is_comment;
use crate::document::spec_chunks;
use crate::document::spec_families;
use crate::document::spec_document;
use crate::document::spec_lines;
use crate::family::spec_family;
use crate::family::spec_gauge_data;
use crate::family::spec_help;
use crate::family::spec_name_and_type;
use crate::family::MetricFamilyView;
use crate::family::MetricType;
use crate::grammar::starts_with;
use crate::records::route_frags;
use crate::records::spec_histogram;
use crate::records::spec_metric;
use crate::records::spec_run;
use crate::records::spec_summary;
use crate::records::HistogramView;
use crate::records::MetricDataView;
use crate::records::MetricView;
use crate::records::RunView;
use crate::records::SummaryView;

verus! {

/// The number of comment lines from index `i` on.
pub open spec fn count_comments(lines: Seq<Seq<char>>, i: int) -> int
    decreases lines.len() - i,
{
    if !(0 <= i < lines.len()) {
        0
    } else {
        (if is_comment(lines[i]) { 1int } else { 0int }) + count_comments(lines, i + 1)
    }
}

/// No character of a value text is a space.
pub proof fn lemma_value_no_space(v: Seq<char>)
    requires
        is_value(v),
    ensures
        forall|i: int| 0 <= i < v.len() ==> v[i] != ' ',
{
    if v == "NaN"@ {
        reveal_strlit("NaN");
        assert(forall|i: int| 0 <= i < v.len() ==> v[i] != ' ');
    } else {
        let k = index_of_from(v, 0, 'e');
        lemma_index_of_from(v, 0, 'e');
        assert forall|i: int| 0 <= i < v.len() implies v[i] != ' ' by {
            if k == -1 {
                assert(is_mantissa(v));
                if v[0] == '-' && i == 0 {
                } else {
                    assert(crate::grammar::is_mantissa_char(v[i]));
                }
            } else {
                let m = v.take(k);
                let e = v.skip(k);
                if i < k {
                    assert(m[i] == v[i]);
                    assert(is_mantissa(m));
                    if m[0] == '-' && i == 0 {
                    } else {
                        assert(crate::grammar::is_mantissa_char(m[i]));
                    }
                } else if i == k {
                    assert(v[k] == 'e');
                } else {
                    assert(e[i - k] == v[i]);
                    if e[1] == '-' && i == k + 1 {
                    } else {
                        assert(crate::grammar::is_digit(e[i - k]));
                    }
                }
            }
        }
    }
}

/// The last space of `name ++ " " ++ tail` is the separating space, when
/// the tail holds none.
proof fn lemma_separator(name: Seq<char>, tail: Seq<char>)
    requires
        forall|i: int| 0 <= i < tail.len() ==> tail[i] != ' ',
    ensures
        last_index_of(name + seq![' '] + tail, ' ') == name.len() as int,
        (name + seq![' '] + tail).take(name.len() as int) == name,
        (name + seq![' '] + tail).skip(name.len() as int + 1) == tail,
{
    let line = name + seq![' '] + tail;
    lemma_last_index_of(line, ' ');
    let r = last_index_of(line, ' ');
    assert(line[name.len() as int] == ' ');
    assert forall|j: int| name.len() < j < line.len() implies line[j] != ' ' by {
        assert(line[j] == tail[j - name.len() - 1]);
    }
    assert(r == name.len() as int);
    assert(line.take(name.len() as int) =~= name);
    assert(line.skip(name.len() as int + 1) =~= tail);
}

/// Inside a fragment list, the first `=` at or after a fragment's start
/// closes its name, and the first `"` after the opening quote closes its
/// value.
proof fn lemma_frag_step(inner: Seq<char>, pos: int, k: Seq<char>, v: Seq<char>)
    requires
        is_label_name(k),
        v.len() > 0,
        forall|i: int| 0 <= i < v.len() ==> v[i] != '"',
        0 <= pos,
        pos + k.len() + v.len() + 3 <= inner.len(),
        inner.subrange(pos, pos + k.len() as int) == k,
        inner[pos + k.len()] == '=',
        inner[pos + k.len() + 1] == '"',
        inner.subrange(pos + k.len() + 2, pos + k.len() + 2 + v.len() as int) == v,
        inner[pos + k.len() + 2 + v.len()] == '"',
    ensures
        index_of_from(inner, pos, '=') == pos + k.len(),
        index_of_from(inner, pos + k.len() + 2, '"') == pos + k.len() + 2 + v.len(),
        is_label_name(inner.subrange(pos, pos + k.len() as int)),
{
    lemma_index_of_from(inner, pos, '=');
    let e = index_of_from(inner, pos, '=');
    assert forall|i: int| pos <= i < pos + k.len() implies inner[i] != '=' by {
        assert(inner.subrange(pos, pos + k.len() as int)[i - pos] == inner[i]);
        assert(is_label_name_char(k[i - pos]));
    }
    assert(e == pos + k.len());
    lemma_index_of_from(inner, pos + k.len() + 2, '"');
    let q = index_of_from(inner, pos + k.len() + 2, '"');
    assert forall|i: int| pos + k.len() + 2 <= i < pos + k.len() + 2 + v.len() implies inner[i]
        != '"' by {
        assert(inner.subrange(pos + k.len() + 2, pos + k.len() + 2 + v.len() as int)[i - (pos
            + k.len() + 2)] == inner[i]);
    }
    assert(q == pos + k.len() + 2 + v.len());
}

/// An unlabeled line `name value` classifies as unlabeled, and its value
/// is returned exactly as written.
pub proof fn lemma_unlabeled_line(name: Seq<char>, value: Seq<char>)
    requires
        is_ident(name),
        is_value(value),
    ensures
        spec_classify(name + seq![' '] + value) == (LineShape::Unlabeled { value }),
{
    lemma_value_no_space(value);
    lemma_separator(name, value);
}

/// A labeled line `name{k1="v1",k2="v2"} value` classifies as labeled:
/// its value is returned exactly as written, and its label set maps each
/// name to its value, the later pair winning on a repeated name.
pub proof fn lemma_labeled_line(
    name: Seq<char>,
    k1: Seq<char>,
    v1: Seq<char>,
    k2: Seq<char>,
    v2: Seq<char>,
    value: Seq<char>,
)
    requires
        is_ident(name),
        is_value(value),
        is_label_name(k1),
        is_label_name(k2),
        v1.len() > 0,
        forall|i: int| 0 <= i < v1.len() ==> v1[i] != '"',
        v2.len() > 0,
        forall|i: int| 0 <= i < v2.len() ==> v2[i] != '"',
    ensures
        ({
            let inner = k1 + seq!['=', '"'] + v1 + seq!['"', ','] + k2 + seq!['=', '"'] + v2
                + seq!['"'];
            let line = name + seq!['{'] + inner + seq!['}'] + seq![' '] + value;
            spec_classify(line) == (LineShape::Labeled {
                value,
                frags: seq![(k1, v1), (k2, v2)],
            })
        }),
        labels_of_frags(seq![(k1, v1), (k2, v2)]) == Map::<Seq<char>, Seq<char>>::empty().insert(
            k1,
            v1,
        ).insert(k2, v2),
{
    let inner = k1 + seq!['=', '"'] + v1 + seq!['"', ','] + k2 + seq!['=', '"'] + v2 + seq!['"'];
    let np = name + seq!['{'] + inner + seq!['}'];
    let line0 = name + seq!['{'] + inner + seq!['}'] + seq![' '] + value;
    let line = np + seq![' '] + value;
    assert(line0 =~= line);
    lemma_value_no_space(value);
    lemma_separator(np, value);
    let e1 = k1.len() as int;
    let a1 = e1 + 2;
    let q1 = a1 + v1.len();
    let pos2 = q1 + 2;
    let e2 = pos2 + k2.len();
    let a2 = e2 + 2;
    let q2 = a2 + v2.len();
    assert(inner.len() == q2 + 1);
    assert(inner.subrange(0, e1) =~= k1);
    assert(inner[e1] == '=');
    assert(inner[e1 + 1] == '"');
    assert(inner.subrange(a1, q1) =~= v1);
    assert(inner[q1] == '"');
    assert(inner[q1 + 1] == ',');
    assert(inner.subrange(pos2, e2) =~= k2);
    assert(inner[e2] == '=');
    assert(inner[e2 + 1] == '"');
    assert(inner.subrange(a2, q2) =~= v2);
    assert(inner[q2] == '"');
    lemma_frag_step(inner, 0, k1, v1);
    lemma_frag_step(inner, pos2, k2, v2);
    assert((inner.subrange(pos2, e2), inner.subrange(a2, q2)) == (k2, v2));
    assert(frags_from(inner, pos2) == Some(seq![(k2, v2)]));
    assert((inner.subrange(0, e1), inner.subrange(a1, q1)) == (k1, v1));
    assert(frags_from(inner, 0) == Some(seq![(k1, v1)] + seq![(k2, v2)]));
    assert(seq![(k1, v1)] + seq![(k2, v2)] =~= seq![(k1, v1), (k2, v2)]);
    assert(spec_frags(inner) == Some(seq![(k1, v1), (k2, v2)]));
    let p = np.len() as int;
    assert(line.take(p) == np);
    assert(line.skip(p + 1) == value);
    assert(np[name.len() as int] == '{');
    assert(!is_ident(np));
    lemma_index_of_from(np, 0, '{');
    assert forall|i: int| 0 <= i < name.len() implies np[i] != '{' by {
        assert(np[i] == name[i]);
        if i == 0 {
            assert(crate::grammar::is_ident_start(name[0]));
        } else {
            assert(is_ident_char(name[i]));
        }
    }
    assert(index_of_from(np, 0, '{') == name.len() as int);
    assert(np.last() == '}');
    assert(np.take(name.len() as int) =~= name);
    assert(np.subrange(name.len() as int + 1, np.len() - 1) =~= inner);
    let fr = seq![(k1, v1), (k2, v2)];
    assert(fr.drop_last() =~= seq![(k1, v1)]);
    assert(seq![(k1, v1)].drop_last() =~= Seq::<(Seq<char>, Seq<char>)>::empty());
    assert(labels_of_frags(Seq::<(Seq<char>, Seq<char>)>::empty()) == Map::<
        Seq<char>,
        Seq<char>,
    >::empty());
    assert(labels_of_frags(seq![(k1, v1)].drop_last()) == Map::<Seq<char>, Seq<char>>::empty());
    assert(labels_of_frags(seq![(k1, v1)]) == Map::<Seq<char>, Seq<char>>::empty().insert(k1, v1));
    assert(labels_of_frags(fr) == Map::<Seq<char>, Seq<char>>::empty().insert(k1, v1).insert(
        k2,
        v2,
    ));
    assert(spec_classify(line) == (LineShape::Labeled { value, frags: fr }));
}

/// A parsed chunk list yields exactly one family per chunk.
pub proof fn lemma_families_len(chunks: Seq<Seq<Seq<char>>>, fams: Seq<MetricFamilyView>)
    requires
        spec_families(chunks) == Ok::<Seq<MetricFamilyView>, crate::error::ParseErrorView>(fams),
    ensures
        fams.len() == chunks.len(),
    decreases chunks.len(),
{
    if chunks.len() > 0 {
        match spec_families(chunks.drop_last()) {
            Ok(fs) => {
                lemma_families_len(chunks.drop_last(), fs);
            },
            Err(_) => {},
        }
    }
}

/// From a state with an open chunk holding `ncom` comment lines, the
/// grouping emits one chunk for the open one and one more for every
/// further pair of comment lines.
proof fn lemma_chunks_count_from(lines: Seq<Seq<char>>, i: int, cur: Seq<Seq<char>>, ncom: int)
    requires
        0 <= i,
        cur.len() > 0,
        ncom == 1 || ncom == 2,
    ensures
        chunks_from(lines, i, cur, ncom).len() == (if ncom == 1 {
            1 + count_comments(lines, i) / 2
        } else {
            1 + (count_comments(lines, i) + 1) / 2
        }),
    decreases lines.len() - i,
{
    if 0 <= i < lines.len() {
        let line = lines[i];
        if is_comment(line) {
            if ncom == 2 {
                lemma_chunks_count_from(lines, i + 1, seq![line], 1);
            } else {
                lemma_chunks_count_from(lines, i + 1, cur.push(line), 2);
            }
        } else {
            lemma_chunks_count_from(lines, i + 1, cur.push(line), ncom);
        }
    }
}

/// A document whose comment lines come in leading `HELP`/`TYPE` pairs
/// parses into exactly one family per pair.
pub proof fn lemma_document_family_count(s: Seq<char>, fams: Seq<MetricFamilyView>)
    requires
        spec_document(s) == Ok::<Seq<MetricFamilyView>, crate::error::ParseErrorView>(fams),
        spec_lines(s).len() > 0,
        is_comment(spec_lines(s)[0]),
        count_comments(spec_lines(s), 0) % 2 == 0,
    ensures
        fams.len() * 2 == count_comments(spec_lines(s), 0),
{
    let lines = spec_lines(s);
    let h = count_comments(lines, 0);
    lemma_families_len(spec_chunks(lines), fams);
    assert(spec_chunks(lines) == chunks_from(lines, 1, seq![lines[0]], 1));
    lemma_chunks_count_from(lines, 1, seq![lines[0]], 1);
    assert(h == 1 + count_comments(lines, 1));
}

/// Every entry of a family's data has the kind that the family's `TYPE`
/// line declares.
/// Does one data entry have the kind the family declares?
pub open spec fn data_kind_matches(mt: MetricType, d: MetricDataView) -> bool {
    match d {
        MetricDataView::Gauge(_) => mt == MetricType::Gauge,
        MetricDataView::Histogram(_) => mt == MetricType::Histogram,
        MetricDataView::Summary(_) => mt == MetricType::Summary,
    }
}

pub open spec fn family_homogeneous(f: MetricFamilyView) -> bool {
    forall|i: int|
        0 <= i < f.data.len() ==> data_kind_matches(f.metric_type, #[trigger] f.data[i])
}

/// The samples of a gauge family are all gauge samples.
proof fn lemma_gauge_data_kinds(lines: Seq<Seq<char>>, ds: Seq<MetricDataView>)
    requires
        spec_gauge_data(lines) == Ok::<Seq<MetricDataView>, crate::error::ParseErrorView>(ds),
    ensures
        forall|i: int| 0 <= i < ds.len() ==> (#[trigger] ds[i]) is Gauge,
    decreases lines.len(),
{
    if lines.len() > 0 {
        match spec_gauge_data(lines.drop_last()) {
            Ok(prev) => {
                lemma_gauge_data_kinds(lines.drop_last(), prev);
            },
            Err(_) => {},
        }
    }
}

/// A family's data is homogeneous: every entry has the declared kind.
pub proof fn lemma_family_homogeneous(lines: Seq<Seq<char>>, f: MetricFamilyView)
    requires
        spec_family(lines) == Ok::<MetricFamilyView, crate::error::ParseErrorView>(f),
    ensures
        family_homogeneous(f),
{
    if lines.len() >= 2 {
        match spec_help(lines[0]) {
            Some(_) => {
                match spec_name_and_type(lines[1]) {
                    Ok((name, mt)) => {
                        match mt {
                            MetricType::Gauge => {
                                match spec_gauge_data(lines.skip(2)) {
                                    Ok(ds) => {
                                        lemma_gauge_data_kinds(lines.skip(2), ds);
                                    },
                                    Err(_) => {},
                                }
                            },
                            MetricType::Histogram => {},
                            MetricType::Summary => {},
                        }
                    },
                    Err(_) => {},
                }
            },
            None => {},
        }
    }
}

/// Every family of a parsed document is homogeneous.
pub proof fn lemma_document_homogeneous(
    chunks: Seq<Seq<Seq<char>>>,
    fams: Seq<MetricFamilyView>,
)
    requires
        spec_families(chunks) == Ok::<Seq<MetricFamilyView>, crate::error::ParseErrorView>(fams),
    ensures
        forall|i: int| 0 <= i < fams.len() ==> family_homogeneous(#[trigger] fams[i]),
    decreases chunks.len(),
{
    if chunks.len() > 0 {
        match spec_families(chunks.drop_last()) {
            Ok(fs) => {
                lemma_document_homogeneous(chunks.drop_last(), fs);
                match spec_family(chunks.last()) {
                    Ok(f) => {
                        lemma_family_homogeneous(chunks.last(), f);
                    },
                    Err(_) => {},
                }
            },
            Err(_) => {},
        }
    }
}

/// A document of one `HELP` line, one gauge `TYPE` line and one unlabeled
/// sample line parses into a single gauge family holding that one sample,
/// with no labels on it.
pub proof fn lemma_single_gauge_document(
    help_line: Seq<char>,
    type_line: Seq<char>,
    sample_line: Seq<char>,
    htext: Seq<char>,
    fname: Seq<char>,
    value: Seq<char>,
)
    requires
        is_comment(help_line),
        is_comment(type_line),
        !is_comment(sample_line),
        spec_help(help_line) == Some(htext),
        spec_name_and_type(type_line) == Ok::<(Seq<char>, MetricType), crate::error::ParseErrorView>(
            (fname, MetricType::Gauge),
        ),
        spec_classify(sample_line) == (LineShape::Unlabeled { value }),
    ensures
        spec_families(spec_chunks(seq![help_line, type_line, sample_line])) == Ok::<
            Seq<MetricFamilyView>,
            crate::error::ParseErrorView,
        >(
            seq![
                MetricFamilyView {
                    metric_type: MetricType::Gauge,
                    metric_name: fname,
                    help: htext,
                    data: seq![
                        MetricDataView::Gauge(MetricView { labels: None, value })
                    ],
                },
            ],
        ),
{
    let lines = seq![help_line, type_line, sample_line];
    let chunk = seq![help_line, type_line, sample_line];
    assert(Seq::<Seq<char>>::empty().push(help_line) =~= seq![help_line]);
    assert(seq![help_line].push(type_line) =~= seq![help_line, type_line]);
    assert(seq![help_line, type_line].push(sample_line) =~= chunk);
    assert(spec_chunks(lines) == chunks_from(lines, 1, seq![help_line], 1));
    assert(chunks_from(lines, 1, seq![help_line], 1) == chunks_from(
        lines,
        2,
        seq![help_line, type_line],
        2,
    ));
    assert(chunks_from(lines, 2, seq![help_line, type_line], 2) == chunks_from(lines, 3, chunk, 2));
    assert(chunks_from(lines, 3, chunk, 2) == seq![chunk]);
    assert(spec_chunks(lines) == seq![chunk]);
    let c = spec_chunks(lines);
    assert(c.drop_last() =~= Seq::<Seq<Seq<char>>>::empty());
    assert(c.last() == chunk);
    let body = chunk.skip(2);
    assert(body =~= seq![sample_line]);
    assert(body.drop_last() =~= Seq::<Seq<char>>::empty());
    assert(body.last() == sample_line);
    assert(spec_metric(sample_line) == Ok::<MetricView, crate::error::ParseErrorView>(
        MetricView { labels: None, value },
    ));
    assert(spec_gauge_data(Seq::<Seq<char>>::empty()) == Ok::<
        Seq<MetricDataView>,
        crate::error::ParseErrorView,
    >(Seq::<MetricDataView>::empty()));
    assert(spec_gauge_data(body.drop_last()) == Ok::<
        Seq<MetricDataView>,
        crate::error::ParseErrorView,
    >(Seq::<MetricDataView>::empty()));
    assert(spec_gauge_data(body) == Ok::<Seq<MetricDataView>, crate::error::ParseErrorView>(
        Seq::<MetricDataView>::empty().push(MetricDataView::Gauge(MetricView { labels: None, value })),
    ));
    assert(Seq::<MetricDataView>::empty().push(
        MetricDataView::Gauge(MetricView { labels: None, value }),
    ) =~= seq![MetricDataView::Gauge(MetricView { labels: None, value })]);
    let f = MetricFamilyView {
        metric_type: MetricType::Gauge,
        metric_name: fname,
        help: htext,
        data: seq![MetricDataView::Gauge(MetricView { labels: None, value })],
    };
    assert(spec_family(chunk) == Ok::<MetricFamilyView, crate::error::ParseErrorView>(f));
    assert(Seq::<MetricFamilyView>::empty().push(f) =~= seq![f]);
    assert(spec_families(Seq::<Seq<Seq<char>>>::empty()) == Ok::<
        Seq<MetricFamilyView>,
        crate::error::ParseErrorView,
    >(Seq::<MetricFamilyView>::empty()));
    assert(spec_families(c.drop_last()) == Ok::<
        Seq<MetricFamilyView>,
        crate::error::ParseErrorView,
    >(Seq::<MetricFamilyView>::empty()));
    assert(spec_families(c) == Ok::<Seq<MetricFamilyView>, crate::error::ParseErrorView>(
        Seq::<MetricFamilyView>::empty().push(f),
    ));
}

/// Routing fragments never puts the reserved name into the shared labels.
proof fn lemma_route_keeps_reserved_out(
    labels: Map<Seq<char>, Seq<char>>,
    hoisted: Map<Seq<char>, Seq<char>>,
    frags: Seq<(Seq<char>, Seq<char>)>,
    reserved: Seq<char>,
    value: Seq<char>,
)
    requires
        !labels.contains_key(reserved),
    ensures
        !route_frags(labels, hoisted, frags, reserved, value).0.contains_key(reserved),
    decreases frags.len(),
{
    if frags.len() > 0 {
        lemma_route_keeps_reserved_out(labels, hoisted, frags.drop_last(), reserved, value);
    }
}

/// Routing fragments never removes a key from the hoisted map.
proof fn lemma_route_hoist_mono(
    labels: Map<Seq<char>, Seq<char>>,
    hoisted: Map<Seq<char>, Seq<char>>,
    frags: Seq<(Seq<char>, Seq<char>)>,
    reserved: Seq<char>,
    value: Seq<char>,
    k: Seq<char>,
)
    requires
        hoisted.contains_key(k),
    ensures
        route_frags(labels, hoisted, frags, reserved, value).1.contains_key(k),
    decreases frags.len(),
{
    if frags.len() > 0 {
        lemma_route_hoist_mono(labels, hoisted, frags.drop_last(), reserved, value, k);
    }
}

/// A fragment of the reserved name lands its value in the hoisted map.
proof fn lemma_route_hoists(
    labels: Map<Seq<char>, Seq<char>>,
    hoisted: Map<Seq<char>, Seq<char>>,
    frags: Seq<(Seq<char>, Seq<char>)>,
    reserved: Seq<char>,
    value: Seq<char>,
    j: int,
)
    requires
        0 <= j < frags.len(),
        frags[j].0 == reserved,
    ensures
        route_frags(labels, hoisted, frags, reserved, value).1.contains_key(frags[j].1),
    decreases frags.len(),
{
    if j == frags.len() - 1 {
    } else {
        assert(frags.drop_last()[j] == frags[j]);
        lemma_route_hoists(labels, hoisted, frags.drop_last(), reserved, value, j);
    }
}

/// The shared labels of a parsed run never hold the reserved name: a
/// `quantile` or `le` fragment is always hoisted, never kept as a label.
pub proof fn lemma_run_labels_exclude_reserved(
    name: Seq<char>,
    reserved: Seq<char>,
    lines: Seq<Seq<char>>,
    rv: RunView,
)
    requires
        spec_run(name, reserved, lines) == Ok::<RunView, crate::error::ParseErrorView>(rv),
    ensures
        !rv.labels.contains_key(reserved),
    decreases lines.len(),
{
    if lines.len() > 0 {
        match spec_run(name, reserved, lines.drop_last()) {
            Ok(acc) => {
                lemma_run_labels_exclude_reserved(name, reserved, lines.drop_last(), acc);
                let line = lines.last();
                if !starts_with(line, name + "_sum"@) && !starts_with(line, name + "_count"@) {
                    match spec_classify(line) {
                        LineShape::Labeled { value, frags } => {
                            lemma_route_keeps_reserved_out(
                                acc.labels,
                                acc.hoisted,
                                frags,
                                reserved,
                                value,
                            );
                        },
                        _ => {},
                    }
                }
            },
            Err(_) => {},
        }
    }
}

/// Every reserved label seen on a routed line of a parsed run appears as
/// a key of the hoisted map: no quantile or bucket bound is lost.
pub proof fn lemma_run_hoists_reserved(
    name: Seq<char>,
    reserved: Seq<char>,
    lines: Seq<Seq<char>>,
    rv: RunView,
    i: int,
    lvalue: Seq<char>,
    lfrags: Seq<(Seq<char>, Seq<char>)>,
    j: int,
)
    requires
        spec_run(name, reserved, lines) == Ok::<RunView, crate::error::ParseErrorView>(rv),
        0 <= i < lines.len(),
        !starts_with(lines[i], name + "_sum"@),
        !starts_with(lines[i], name + "_count"@),
        spec_classify(lines[i]) == (LineShape::Labeled { value: lvalue, frags: lfrags }),
        0 <= j < lfrags.len(),
        lfrags[j].0 == reserved,
    ensures
        rv.hoisted.contains_key(lfrags[j].1),
    decreases lines.len(),
{
    match spec_run(name, reserved, lines.drop_last()) {
        Ok(acc) => {
            if i == lines.len() - 1 {
                lemma_route_hoists(acc.labels, acc.hoisted, lfrags, reserved, lvalue, j);
            } else {
                assert(lines.drop_last()[i] == lines[i]);
                lemma_run_hoists_reserved(
                    name,
                    reserved,
                    lines.drop_last(),
                    acc,
                    i,
                    lvalue,
                    lfrags,
                    j,
                );
                let line = lines.last();
                if !starts_with(line, name + "_sum"@) && !starts_with(line, name + "_count"@) {
                    match spec_classify(line) {
                        LineShape::Labeled { value, frags } => {
                            lemma_route_hoist_mono(
                                acc.labels,
                                acc.hoisted,
                                frags,
                                reserved,
                                value,
                                lfrags[j].1,
                            );
                        },
                        _ => {},
                    }
                }
            }
        },
        Err(_) => {},
    }
}

/// The `sum` of a parsed run is the value of its last `<name>_sum` line,
/// exactly as that line wrote it.
pub proof fn lemma_run_sum_value(
    name: Seq<char>,
    reserved: Seq<char>,
    lines: Seq<Seq<char>>,
    rv: RunView,
    i: int,
)
    requires
        spec_run(name, reserved, lines) == Ok::<RunView, crate::error::ParseErrorView>(rv),
        0 <= i < lines.len(),
        starts_with(lines[i], name + "_sum"@),
        forall|l: int| i < l < lines.len() ==> !starts_with(#[trigger] lines[l], name + "_sum"@),
    ensures
        match spec_classify(lines[i]) {
            LineShape::Unlabeled { value } => rv.sum == value,
            LineShape::Labeled { value, frags } => rv.sum == value,
            LineShape::Invalid => false,
        },
    decreases lines.len(),
{
    match spec_run(name, reserved, lines.drop_last()) {
        Ok(acc) => {
            if i < lines.len() - 1 {
                assert(lines.drop_last()[i] == lines[i]);
                assert(forall|l: int|
                    i < l < lines.drop_last().len() ==> !starts_with(
                        #[trigger] lines.drop_last()[l],
                        name + "_sum"@,
                    ));
                lemma_run_sum_value(name, reserved, lines.drop_last(), acc, i);
                assert(!starts_with(lines.last(), name + "_sum"@));
            }
        },
        Err(_) => {},
    }
}

/// The `count` of a parsed run is the value of its last `<name>_count`
/// line, exactly as that line wrote it.
pub proof fn lemma_run_count_value(
    name: Seq<char>,
    reserved: Seq<char>,
    lines: Seq<Seq<char>>,
    rv: RunView,
    i: int,
)
    requires
        spec_run(name, reserved, lines) == Ok::<RunView, crate::error::ParseErrorView>(rv),
        0 <= i < lines.len(),
        !starts_with(lines[i], name + "_sum"@),
        starts_with(lines[i], name + "_count"@),
        forall|l: int| i < l < lines.len() ==> !starts_with(#[trigger] lines[l], name + "_count"@),
    ensures
        match spec_classify(lines[i]) {
            LineShape::Unlabeled { value } => rv.count == value,
            LineShape::Labeled { value, frags } => rv.count == value,
            LineShape::Invalid => false,
        },
    decreases lines.len(),
{
    match spec_run(name, reserved, lines.drop_last()) {
        Ok(acc) => {
            if i < lines.len() - 1 {
                assert(lines.drop_last()[i] == lines[i]);
                assert(forall|l: int|
                    i < l < lines.drop_last().len() ==> !starts_with(
                        #[trigger] lines.drop_last()[l],
                        name + "_count"@,
                    ));
                lemma_run_count_value(name, reserved, lines.drop_last(), acc, i);
                assert(!starts_with(lines.last(), name + "_count"@));
            }
        },
        Err(_) => {},
    }
}

/// A parsed summary record carries labels (never `None`), and those
/// labels exclude `quantile`, which is hoisted into the quantile map.
pub proof fn lemma_summary_labels(name: Seq<char>, lines: Seq<Seq<char>>, sv: SummaryView)
    requires
        spec_summary(name, lines) == Ok::<SummaryView, crate::error::ParseErrorView>(sv),
    ensures
        sv.labels is Some,
        match sv.labels {
            Some(m) => !m.contains_key("quantile"@),
            None => false,
        },
{
    match spec_run(name, "quantile"@, lines) {
        Ok(rv) => {
            lemma_run_labels_exclude_reserved(name, "quantile"@, lines, rv);
        },
        Err(_) => {},
    }
}

/// A parsed histogram record carries labels (never `None`), and those
/// labels exclude `le`, which is hoisted into the bucket map.
pub proof fn lemma_histogram_labels(name: Seq<char>, lines: Seq<Seq<char>>, hv: HistogramView)
    requires
        spec_histogram(name, lines) == Ok::<HistogramView, crate::error::ParseErrorView>(hv),
    ensures
        hv.labels is Some,
        match hv.labels {
            Some(m) => !m.contains_key("le"@),
            None => false,
        },
{
    match spec_run(name, "le"@, lines) {
        Ok(rv) => {
            lemma_run_labels_exclude_reserved(name, "le"@, lines, rv);
        },
        Err(_) => {},
    }
}

} // verus!
