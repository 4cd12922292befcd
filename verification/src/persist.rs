//! The registry's persisted text format: a single object holding the SDK
//! version and the component mapping, each component with its mode and its
//! optional path fields, omitted when absent.
//!
//! `to_json_string` pins the canonical rendering exactly; `from_json_str`
//! reads it back, accepting whitespace and key-order variants besides, and
//! a load of a canonical rendering is the inverse of the save that wrote
//! it.

use vstd::prelude::*;
use crate::jsontext::quoted;
use crate::jsontext::quote_string;
use crate::jsontext::parse_string;
use crate::paths::chars_of;
use crate::paths::str_eq;
use crate::registry::ComponentConfig;
use crate::registry::ComponentEntry;
use crate::registry::ComponentMode;
use crate::registry::ComponentView;
use crate::registry::DevConfig;
use crate::registry::DevConfigView;
use crate::registry::EntryView;

verus! {

/// A component mode as it stands in the registry text.
pub open spec fn spec_mode_text(m: ComponentMode) -> Seq<char> {
    if m == ComponentMode::Source {
        "\"source\""@
    } else {
        "\"binary\""@
    }
}

/// An optional path field as it stands in the registry text: its labelled,
/// quoted value, or nothing when absent.
pub open spec fn spec_opt_field(label: Seq<char>, o: Option<Seq<char>>) -> Seq<char> {
    match o {
        Some(v) => label + quoted(v),
        None => Seq::empty(),
    }
}

/// A component's settings as they stand in the registry text.
pub open spec fn spec_comp_text(c: ComponentView) -> Seq<char> {
    "{\"mode\":"@ + spec_mode_text(c.mode) + spec_opt_field(",\"lib\":"@, c.lib) + spec_opt_field(
        ",\"qml\":"@,
        c.qml,
    ) + spec_opt_field(",\"plugin\":"@, c.plugin) + spec_opt_field(",\"headers\":"@, c.headers)
        + spec_opt_field(",\"bin\":"@, c.bin) + spec_opt_field(",\"root\":"@, c.root) + "}"@
}

/// One named entry as it stands in the registry text.
pub open spec fn spec_entry_text(e: EntryView) -> Seq<char> {
    quoted(e.name) + ":"@ + spec_comp_text(e.config)
}

/// The component mapping as it stands in the registry text: the entries in
/// order, comma-separated.
pub open spec fn spec_entries_text(es: Seq<EntryView>) -> Seq<char>
    decreases es.len(),
{
    if es.len() == 0 {
        Seq::empty()
    } else if es.len() == 1 {
        spec_entry_text(es[0])
    } else {
        spec_entries_text(es.drop_last()) + ","@ + spec_entry_text(es.last())
    }
}

/// The whole registry as it stands in its persisted text: the version
/// key is omitted when no version is set.
pub open spec fn spec_registry_text(cfg: DevConfigView) -> Seq<char> {
    (match cfg.sdk_version {
        Some(v) => "{\"sdk_version\":"@ + quoted(v) + ",\"components\":{"@,
        None => "{\"components\":{"@,
    }) + spec_entries_text(cfg.components) + "}}"@
}

/// Appends one optional labelled field to the text under construction.
fn append_opt_field(s: &mut String, label: &str, o: &Option<String>)
    ensures
        final(s)@ == old(s)@ + spec_opt_field(label@, o.deep_view()),
{
    match o {
        Some(v) => {
            s.append(label);
            s.append(quote_string(v.as_str()).as_str());
            proof {
                assert(s@ =~= old(s)@ + (label@ + quoted(o.deep_view().unwrap())));
            }
        },
        None => {
            proof {
                assert(s@ =~= old(s)@ + Seq::<char>::empty());
            }
        },
    }
}

/// The labelled optional fields of a component, in rendering order.
pub open spec fn comp_labels() -> Seq<Seq<char>> {
    seq![",\"lib\":"@, ",\"qml\":"@, ",\"plugin\":"@, ",\"headers\":"@, ",\"bin\":"@, ",\"root\":"@]
}

/// The optional field values of a component, in rendering order.
pub open spec fn comp_vals(c: ComponentView) -> Seq<Option<Seq<char>>> {
    seq![c.lib, c.qml, c.plugin, c.headers, c.bin, c.root]
}

/// The labelled optional fields as they stand in the text, in order.
pub open spec fn fields_text(labels: Seq<Seq<char>>, vals: Seq<Option<Seq<char>>>) -> Seq<char>
    decreases labels.len(),
{
    if labels.len() == 0 {
        Seq::empty()
    } else {
        spec_opt_field(labels[0], vals[0]) + fields_text(labels.skip(1), vals.skip(1))
    }
}

/// A component's text splits into the fixed head, the mode, the labelled
/// optional fields and the closing brace.
#[verifier::rlimit(100)]
proof fn lemma_comp_text_shape(c: ComponentView)
    ensures
        spec_comp_text(c) == "{\"mode\":"@ + spec_mode_text(c.mode) + fields_text(
            comp_labels(),
            comp_vals(c),
        ) + seq!['}'],
{
    lemma_fields_text_unfold(c);
    reveal_strlit("}");
    assert("}"@ =~= seq!['}']);
    assert(spec_comp_text(c) =~= "{\"mode\":"@ + spec_mode_text(c.mode) + fields_text(
        comp_labels(),
        comp_vals(c),
    ) + seq!['}']);
}

/// The field chain unfolds into its six labelled pieces.
#[verifier::rlimit(100)]
proof fn lemma_fields_text_unfold(c: ComponentView)
    ensures
        fields_text(comp_labels(), comp_vals(c)) == spec_opt_field(",\"lib\":"@, c.lib) + (
        spec_opt_field(",\"qml\":"@, c.qml) + (spec_opt_field(",\"plugin\":"@, c.plugin) + (
        spec_opt_field(",\"headers\":"@, c.headers) + (spec_opt_field(",\"bin\":"@, c.bin)
            + spec_opt_field(",\"root\":"@, c.root))))),
{
    let ls = comp_labels();
    let vs = comp_vals(c);
    let l1 = ls.skip(1);
    let v1 = vs.skip(1);
    let l2 = l1.skip(1);
    let v2 = v1.skip(1);
    let l3 = l2.skip(1);
    let v3 = v2.skip(1);
    let l4 = l3.skip(1);
    let v4 = v3.skip(1);
    let l5 = l4.skip(1);
    let v5 = v4.skip(1);
    assert(l1 =~= seq![",\"qml\":"@, ",\"plugin\":"@, ",\"headers\":"@, ",\"bin\":"@, ",\"root\":"@]);
    assert(v1 =~= seq![c.qml, c.plugin, c.headers, c.bin, c.root]);
    assert(l2 =~= seq![",\"plugin\":"@, ",\"headers\":"@, ",\"bin\":"@, ",\"root\":"@]);
    assert(v2 =~= seq![c.plugin, c.headers, c.bin, c.root]);
    assert(l3 =~= seq![",\"headers\":"@, ",\"bin\":"@, ",\"root\":"@]);
    assert(v3 =~= seq![c.headers, c.bin, c.root]);
    assert(l4 =~= seq![",\"bin\":"@, ",\"root\":"@]);
    assert(v4 =~= seq![c.bin, c.root]);
    assert(l5 =~= seq![",\"root\":"@]);
    assert(v5 =~= seq![c.root]);
    assert(l5.skip(1) =~= Seq::<Seq<char>>::empty());
    assert(v5.skip(1) =~= Seq::<Option<Seq<char>>>::empty());
    assert(fields_text(l5.skip(1), v5.skip(1)) == Seq::<char>::empty());
    assert(fields_text(l5, v5) == spec_opt_field(",\"root\":"@, c.root) + fields_text(
        l5.skip(1),
        v5.skip(1),
    )) by {
        assert(l5[0] == ",\"root\":"@);
        assert(v5[0] == c.root);
    }
    assert(fields_text(l4, v4) == spec_opt_field(",\"bin\":"@, c.bin) + fields_text(l5, v5)) by {
        assert(l4[0] == ",\"bin\":"@);
        assert(v4[0] == c.bin);
        assert(l4.skip(1) == l5 && v4.skip(1) == v5);
    }
    assert(fields_text(l3, v3) == spec_opt_field(",\"headers\":"@, c.headers) + fields_text(
        l4,
        v4,
    )) by {
        assert(l3[0] == ",\"headers\":"@);
        assert(v3[0] == c.headers);
        assert(l3.skip(1) == l4 && v3.skip(1) == v4);
    }
    assert(fields_text(l2, v2) == spec_opt_field(",\"plugin\":"@, c.plugin) + fields_text(
        l3,
        v3,
    )) by {
        assert(l2[0] == ",\"plugin\":"@);
        assert(v2[0] == c.plugin);
        assert(l2.skip(1) == l3 && v2.skip(1) == v3);
    }
    assert(fields_text(l1, v1) == spec_opt_field(",\"qml\":"@, c.qml) + fields_text(l2, v2)) by {
        assert(l1[0] == ",\"qml\":"@);
        assert(v1[0] == c.qml);
        assert(l1.skip(1) == l2 && v1.skip(1) == v2);
    }
    assert(fields_text(ls, vs) == spec_opt_field(",\"lib\":"@, c.lib) + fields_text(l1, v1)) by {
        assert(ls[0] == ",\"lib\":"@);
        assert(vs[0] == c.lib);
        assert(ls.skip(1) == l1 && vs.skip(1) == v1);
    }
    assert(fields_text(ls, vs) =~= spec_opt_field(",\"lib\":"@, c.lib) + (spec_opt_field(
        ",\"qml\":"@,
        c.qml,
    ) + (spec_opt_field(",\"plugin\":"@, c.plugin) + (spec_opt_field(",\"headers\":"@, c.headers)
        + (spec_opt_field(",\"bin\":"@, c.bin) + spec_opt_field(",\"root\":"@, c.root))))));
}

/// The labels are well-shaped for disambiguation: each starts with a
/// comma, is at least three characters long, and no two agree at their
/// third character.
proof fn lemma_comp_labels_distinct()
    ensures
        forall|i: int|
            0 <= i < comp_labels().len() ==> (#[trigger] comp_labels()[i]).len() >= 3
                && comp_labels()[i][0] == ',',
        forall|i: int, j: int|
            0 <= i < j < comp_labels().len() ==> (#[trigger] comp_labels()[i])[2] != (
            #[trigger] comp_labels()[j])[2],
{
    reveal_strlit(",\"lib\":");
    reveal_strlit(",\"qml\":");
    reveal_strlit(",\"plugin\":");
    reveal_strlit(",\"headers\":");
    reveal_strlit(",\"bin\":");
    reveal_strlit(",\"root\":");
    assert(comp_labels()[0][2] == 'l');
    assert(comp_labels()[1][2] == 'q');
    assert(comp_labels()[2][2] == 'p');
    assert(comp_labels()[3][2] == 'h');
    assert(comp_labels()[4][2] == 'b');
    assert(comp_labels()[5][2] == 'r');
}

/// Where a field chain's text begins: with the first present field's
/// label, or nowhere when every field is absent.
proof fn lemma_fields_shape(labels: Seq<Seq<char>>, vals: Seq<Option<Seq<char>>>, tail: Seq<char>)
    requires
        labels.len() == vals.len(),
    ensures
        (exists|j: int| 0 <= j < vals.len() && (#[trigger] vals[j]) is Some) ==> exists|j: int|
            0 <= j < vals.len() && (#[trigger] vals[j]) is Some && (forall|k: int|
                0 <= k < j ==> (#[trigger] vals[k]) is None) && labels[j].is_prefix_of(
                fields_text(labels, vals) + tail,
            ),
        (forall|j: int| 0 <= j < vals.len() ==> (#[trigger] vals[j]) is None) ==> fields_text(
            labels,
            vals,
        ) == Seq::<char>::empty(),
    decreases labels.len(),
{
    if labels.len() == 0 {
        assert(fields_text(labels, vals) =~= Seq::<char>::empty());
    } else {
        lemma_fields_shape(labels.skip(1), vals.skip(1), tail);
        match vals[0] {
            Some(v) => {
                let s = fields_text(labels, vals) + tail;
                assert(spec_opt_field(labels[0], vals[0]) == labels[0] + quoted(v));
                assert(s =~= labels[0] + (quoted(v) + fields_text(labels.skip(1), vals.skip(1))
                    + tail));
                assert(labels[0].is_prefix_of(s)) by {
                    assert(forall|k: int|
                        0 <= k < labels[0].len() ==> s[k] == labels[0][k]);
                    assert(labels[0] =~= s.take(labels[0].len() as int));
                }
            },
            None => {
                assert(spec_opt_field(labels[0], vals[0]) == Seq::<char>::empty());
                assert(fields_text(labels, vals) =~= fields_text(labels.skip(1), vals.skip(1)));
                if exists|j: int| 0 <= j < vals.len() && (#[trigger] vals[j]) is Some {
                    assert(exists|j: int|
                        0 <= j < vals.skip(1).len() && (#[trigger] vals.skip(1)[j]) is Some) by {
                        let j = choose|j: int|
                            0 <= j < vals.len() && (#[trigger] vals[j]) is Some;
                        assert(j >= 1);
                        assert(vals.skip(1)[j - 1] is Some);
                    }
                    let j = choose|j: int|
                        0 <= j < vals.skip(1).len() && (#[trigger] vals.skip(1)[j]) is Some && (
                        forall|k: int|
                            0 <= k < j ==> (#[trigger] vals.skip(1)[k]) is None) && labels.skip(
                            1,
                        )[j].is_prefix_of(fields_text(labels.skip(1), vals.skip(1)) + tail);
                    assert(vals[j + 1] is Some);
                    assert(forall|k: int| 0 <= k < j + 1 ==> (#[trigger] vals[k]) is None) by {
                        assert(forall|k: int|
                            1 <= k < j + 1 ==> (#[trigger] vals[k]) == vals.skip(1)[k - 1]);
                    }
                    assert(labels[j + 1].is_prefix_of(fields_text(labels, vals) + tail));
                } else {
                    assert(forall|j: int|
                        0 <= j < vals.skip(1).len() ==> (#[trigger] vals.skip(1)[j]) is None) by {
                        assert(forall|j: int|
                            0 <= j < vals.skip(1).len() ==> vals.skip(1)[j] == vals[j + 1]);
                    }
                }
            },
        }
    }
}

/// Two equal texts that both render a field chain over the same labels,
/// each closed by a brace, carry the same field values and tails.
proof fn lemma_fields_inj(
    labels: Seq<Seq<char>>,
    v1: Seq<Option<Seq<char>>>,
    v2: Seq<Option<Seq<char>>>,
    r1: Seq<char>,
    r2: Seq<char>,
)
    requires
        labels.len() == v1.len(),
        labels.len() == v2.len(),
        fields_text(labels, v1) + seq!['}'] + r1 == fields_text(labels, v2) + seq!['}'] + r2,
        forall|i: int|
            0 <= i < labels.len() ==> (#[trigger] labels[i]).len() >= 3 && labels[i][0] == ',',
        forall|i: int, j: int|
            0 <= i < j < labels.len() ==> (#[trigger] labels[i])[2] != (#[trigger] labels[j])[2],
    ensures
        v1 == v2,
        r1 == r2,
    decreases labels.len(), 1int,
{
    let s1 = fields_text(labels, v1) + seq!['}'] + r1;
    let s2 = fields_text(labels, v2) + seq!['}'] + r2;
    if labels.len() == 0 {
        assert(fields_text(labels, v1) =~= Seq::<char>::empty());
        assert(fields_text(labels, v2) =~= Seq::<char>::empty());
        assert(v1 =~= v2);
        assert(seq!['}'] + r1 =~= s1);
        assert(seq!['}'] + r2 =~= s2);
        crate::jsontext::lemma_concat_cancel(seq!['}'], r1, r2);
    } else {
        match (v1[0], v2[0]) {
            (Some(a), Some(b)) => {
                assert(s1 =~= labels[0] + (quoted(a) + (fields_text(
                    labels.skip(1),
                    v1.skip(1),
                ) + seq!['}'] + r1)));
                assert(s2 =~= labels[0] + (quoted(b) + (fields_text(
                    labels.skip(1),
                    v2.skip(1),
                ) + seq!['}'] + r2)));
                crate::jsontext::lemma_concat_cancel(
                    labels[0],
                    quoted(a) + (fields_text(labels.skip(1), v1.skip(1)) + seq!['}'] + r1),
                    quoted(b) + (fields_text(labels.skip(1), v2.skip(1)) + seq!['}'] + r2),
                );
                crate::jsontext::lemma_quoted_inj(
                    a,
                    b,
                    fields_text(labels.skip(1), v1.skip(1)) + seq!['}'] + r1,
                    fields_text(labels.skip(1), v2.skip(1)) + seq!['}'] + r2,
                );
                lemma_fields_tail_inj(labels, v1, v2, r1, r2);
                assert(v1 =~= v2) by {
                    assert(forall|k: int|
                        1 <= k < v1.len() ==> v1[k] == v1.skip(1)[k - 1]);
                    assert(forall|k: int|
                        1 <= k < v2.len() ==> v2[k] == v2.skip(1)[k - 1]);
                }
            },
            (None, None) => {
                assert(s1 =~= fields_text(labels.skip(1), v1.skip(1)) + seq!['}'] + r1);
                assert(s2 =~= fields_text(labels.skip(1), v2.skip(1)) + seq!['}'] + r2);
                lemma_fields_tail_inj(labels, v1, v2, r1, r2);
                assert(v1 =~= v2) by {
                    assert(forall|k: int|
                        1 <= k < v1.len() ==> v1[k] == v1.skip(1)[k - 1]);
                    assert(forall|k: int|
                        1 <= k < v2.len() ==> v2[k] == v2.skip(1)[k - 1]);
                }
            },
            (Some(a), None) => {
                lemma_fields_one_sided(labels, v1, v2, r1, r2);
            },
            (None, Some(b)) => {
                lemma_fields_one_sided(labels, v2, v1, r2, r1);
            },
        }
    }
}

/// The impossible case: one side's chain starts with its first field
/// present and the other side's does not.
proof fn lemma_fields_one_sided(
    labels: Seq<Seq<char>>,
    v1: Seq<Option<Seq<char>>>,
    v2: Seq<Option<Seq<char>>>,
    r1: Seq<char>,
    r2: Seq<char>,
)
    requires
        labels.len() >= 1,
        labels.len() == v1.len(),
        labels.len() == v2.len(),
        v1[0] is Some,
        v2[0] is None,
        fields_text(labels, v1) + seq!['}'] + r1 == fields_text(labels, v2) + seq!['}'] + r2,
        forall|i: int|
            0 <= i < labels.len() ==> (#[trigger] labels[i]).len() >= 3 && labels[i][0] == ',',
        forall|i: int, j: int|
            0 <= i < j < labels.len() ==> (#[trigger] labels[i])[2] != (#[trigger] labels[j])[2],
    ensures
        v1 == v2,
        r1 == r2,
{
    let s1 = fields_text(labels, v1) + seq!['}'] + r1;
    let s2 = fields_text(labels, v2) + seq!['}'] + r2;
    lemma_fields_shape(labels, v1, seq!['}'] + r1);
    assert(s1 =~= fields_text(labels, v1) + (seq!['}'] + r1));
    let j1 = choose|j: int|
        0 <= j < v1.len() && (#[trigger] v1[j]) is Some && (forall|k: int|
            0 <= k < j ==> (#[trigger] v1[k]) is None) && labels[j].is_prefix_of(
            fields_text(labels, v1) + (seq!['}'] + r1),
        );
    assert(j1 == 0) by {
        if j1 != 0 {
            assert(v1[0] is None);
        }
    }
    assert(s1[0] == ',' && s1[2] == labels[0][2]) by {
        assert(labels[0].is_prefix_of(fields_text(labels, v1) + (seq!['}'] + r1)));
        assert(s1[0] == labels[0][0]);
        assert(s1[2] == labels[0][2]);
    }
    lemma_fields_shape(labels, v2, seq!['}'] + r2);
    assert(s2 =~= fields_text(labels, v2) + (seq!['}'] + r2));
    if exists|j: int| 0 <= j < v2.len() && (#[trigger] v2[j]) is Some {
        let j2 = choose|j: int|
            0 <= j < v2.len() && (#[trigger] v2[j]) is Some && (forall|k: int|
                0 <= k < j ==> (#[trigger] v2[k]) is None) && labels[j].is_prefix_of(
                fields_text(labels, v2) + (seq!['}'] + r2),
            );
        assert(j2 >= 1) by {
            assert(v2[0] is None);
        }
        assert(s2[2] == labels[j2][2]) by {
            assert(labels[j2].is_prefix_of(fields_text(labels, v2) + (seq!['}'] + r2)));
        }
        assert(labels[0][2] != labels[j2][2]);
    } else {
        assert(fields_text(labels, v2) == Seq::<char>::empty());
        assert(s2 =~= seq!['}'] + r2);
        assert(s2[0] == '}');
        assert(s1[0] == ',');
    }
}

/// Shared tail step of the field-chain induction.
proof fn lemma_fields_tail_inj(
    labels: Seq<Seq<char>>,
    v1: Seq<Option<Seq<char>>>,
    v2: Seq<Option<Seq<char>>>,
    r1: Seq<char>,
    r2: Seq<char>,
)
    requires
        labels.len() >= 1,
        labels.len() == v1.len(),
        labels.len() == v2.len(),
        fields_text(labels.skip(1), v1.skip(1)) + seq!['}'] + r1 == fields_text(
            labels.skip(1),
            v2.skip(1),
        ) + seq!['}'] + r2,
        forall|i: int|
            0 <= i < labels.len() ==> (#[trigger] labels[i]).len() >= 3 && labels[i][0] == ',',
        forall|i: int, j: int|
            0 <= i < j < labels.len() ==> (#[trigger] labels[i])[2] != (#[trigger] labels[j])[2],
    ensures
        v1.skip(1) == v2.skip(1),
        r1 == r2,
    decreases labels.len(), 0int,
{
    assert(forall|i: int|
        0 <= i < labels.skip(1).len() ==> (#[trigger] labels.skip(1)[i]).len() >= 3 && labels.skip(
            1,
        )[i][0] == ',') by {
        assert(forall|i: int|
            0 <= i < labels.skip(1).len() ==> labels.skip(1)[i] == labels[i + 1]);
    }
    assert(forall|i: int, j: int|
        0 <= i < j < labels.skip(1).len() ==> (#[trigger] labels.skip(1)[i])[2] != (
        #[trigger] labels.skip(1)[j])[2]) by {
        assert(forall|i: int|
            0 <= i < labels.skip(1).len() ==> labels.skip(1)[i] == labels[i + 1]);
    }
    lemma_fields_inj(labels.skip(1), v1.skip(1), v2.skip(1), r1, r2);
}

/// A component text is self-delimiting: equal texts carry equal settings
/// and equal tails.
#[verifier::rlimit(100)]
proof fn lemma_comp_inj(c1: ComponentView, c2: ComponentView, r1: Seq<char>, r2: Seq<char>)
    requires
        spec_comp_text(c1) + r1 == spec_comp_text(c2) + r2,
    ensures
        c1 == c2,
        r1 == r2,
{
    lemma_comp_text_shape(c1);
    lemma_comp_text_shape(c2);
    let head = "{\"mode\":"@;
    let m1 = spec_mode_text(c1.mode);
    let m2 = spec_mode_text(c2.mode);
    let f1 = fields_text(comp_labels(), comp_vals(c1));
    let f2 = fields_text(comp_labels(), comp_vals(c2));
    assert(spec_comp_text(c1) + r1 =~= head + (m1 + (f1 + seq!['}'] + r1)));
    assert(spec_comp_text(c2) + r2 =~= head + (m2 + (f2 + seq!['}'] + r2)));
    crate::jsontext::lemma_concat_cancel(
        head,
        m1 + (f1 + seq!['}'] + r1),
        m2 + (f2 + seq!['}'] + r2),
    );
    reveal_strlit("\"binary\"");
    reveal_strlit("\"source\"");
    assert(c1.mode == c2.mode) by {
        if c1.mode != c2.mode {
            let t1 = m1 + (f1 + seq!['}'] + r1);
            let t2 = m2 + (f2 + seq!['}'] + r2);
            assert(t1[1] == m1[1]);
            assert(t2[1] == m2[1]);
            assert(("\"binary\""@)[1] == 'b');
            assert(("\"source\""@)[1] == 's');
        }
    }
    crate::jsontext::lemma_concat_cancel(m1, f1 + seq!['}'] + r1, f2 + seq!['}'] + r2);
    lemma_comp_labels_distinct();
    lemma_fields_inj(comp_labels(), comp_vals(c1), comp_vals(c2), r1, r2);
    assert(c1.lib == c2.lib && c1.qml == c2.qml && c1.plugin == c2.plugin && c1.headers
        == c2.headers && c1.bin == c2.bin && c1.root == c2.root) by {
        assert(comp_vals(c1)[0] == comp_vals(c2)[0]);
        assert(comp_vals(c1)[1] == comp_vals(c2)[1]);
        assert(comp_vals(c1)[2] == comp_vals(c2)[2]);
        assert(comp_vals(c1)[3] == comp_vals(c2)[3]);
        assert(comp_vals(c1)[4] == comp_vals(c2)[4]);
        assert(comp_vals(c1)[5] == comp_vals(c2)[5]);
    }
}

/// An entry text is self-delimiting: equal texts carry equal entries and
/// equal tails.
proof fn lemma_entry_inj(e1: EntryView, e2: EntryView, r1: Seq<char>, r2: Seq<char>)
    requires
        spec_entry_text(e1) + r1 == spec_entry_text(e2) + r2,
    ensures
        e1 == e2,
        r1 == r2,
{
    assert(spec_entry_text(e1) + r1 =~= quoted(e1.name) + (":"@ + (spec_comp_text(e1.config)
        + r1)));
    assert(spec_entry_text(e2) + r2 =~= quoted(e2.name) + (":"@ + (spec_comp_text(e2.config)
        + r2)));
    crate::jsontext::lemma_quoted_inj(
        e1.name,
        e2.name,
        ":"@ + (spec_comp_text(e1.config) + r1),
        ":"@ + (spec_comp_text(e2.config) + r2),
    );
    crate::jsontext::lemma_concat_cancel(
        ":"@,
        spec_comp_text(e1.config) + r1,
        spec_comp_text(e2.config) + r2,
    );
    lemma_comp_inj(e1.config, e2.config, r1, r2);
}

/// The entry list's text splits at its first entry.
proof fn lemma_entries_front(es: Seq<EntryView>)
    requires
        es.len() >= 1,
    ensures
        es.len() == 1 ==> spec_entries_text(es) == spec_entry_text(es[0]),
        es.len() > 1 ==> spec_entries_text(es) == spec_entry_text(es[0]) + ","@
            + spec_entries_text(es.skip(1)),
    decreases es.len(),
{
    if es.len() == 1 {
    } else if es.len() == 2 {
        assert(es.drop_last() =~= seq![es[0]]);
        assert(es.skip(1) =~= seq![es[1]]);
        assert(spec_entries_text(seq![es[0]]) == spec_entry_text(seq![es[0]][0]));
        assert(spec_entries_text(seq![es[1]]) == spec_entry_text(seq![es[1]][0]));
        assert(spec_entries_text(es) =~= spec_entry_text(es[0]) + ","@ + spec_entries_text(
            es.skip(1),
        ));
    } else {
        lemma_entries_front(es.drop_last());
        assert(es.drop_last()[0] == es[0]);
        assert(es.skip(1).len() >= 2);
        assert(es.skip(1).drop_last() =~= es.drop_last().skip(1));
        assert(es.skip(1).last() == es.last());
        assert(spec_entries_text(es.skip(1)) == spec_entries_text(es.skip(1).drop_last()) + ","@
            + spec_entry_text(es.skip(1).last()));
        assert(spec_entries_text(es) == spec_entries_text(es.drop_last()) + ","@
            + spec_entry_text(es.last()));
        assert(spec_entries_text(es) =~= spec_entry_text(es[0]) + ","@ + spec_entries_text(
            es.skip(1),
        ));
    }
}

/// The entry list's text is self-delimiting up to its closing brace.
#[verifier::rlimit(100)]
proof fn lemma_entries_inj(a: Seq<EntryView>, b: Seq<EntryView>, r1: Seq<char>, r2: Seq<char>)
    requires
        spec_entries_text(a) + (seq!['}'] + r1) == spec_entries_text(b) + (seq!['}'] + r2),
    ensures
        a == b,
        r1 == r2,
    decreases a.len(),
{
    let s1 = spec_entries_text(a) + (seq!['}'] + r1);
    let s2 = spec_entries_text(b) + (seq!['}'] + r2);
    reveal_strlit(",");
    if a.len() == 0 && b.len() == 0 {
        assert(spec_entries_text(a) =~= Seq::<char>::empty());
        assert(spec_entries_text(b) =~= Seq::<char>::empty());
        assert(seq!['}'] + r1 =~= s1);
        assert(seq!['}'] + r2 =~= s2);
        crate::jsontext::lemma_concat_cancel(seq!['}'], r1, r2);
        assert(a =~= b);
    } else if a.len() == 0 {
        lemma_entries_front(b);
        assert(s1[0] == '}') by {
            assert(spec_entries_text(a) =~= Seq::<char>::empty());
            assert(s1 =~= seq!['}'] + r1);
        }
        assert(s2[0] == '"') by {
            assert(spec_entry_text(b[0])[0] == '"') by {
                assert(spec_entry_text(b[0]) =~= quoted(b[0].name) + (":"@ + spec_comp_text(
                    b[0].config,
                )));
                assert(quoted(b[0].name)[0] == '"');
            }
            if b.len() == 1 {
                assert(s2 =~= spec_entry_text(b[0]) + (seq!['}'] + r2));
            } else {
                assert(s2 =~= spec_entry_text(b[0]) + (","@ + spec_entries_text(b.skip(1)) + (
                seq!['}'] + r2)));
            }
        }
    } else if b.len() == 0 {
        lemma_entries_front(a);
        assert(s2[0] == '}') by {
            assert(spec_entries_text(b) =~= Seq::<char>::empty());
            assert(s2 =~= seq!['}'] + r2);
        }
        assert(s1[0] == '"') by {
            assert(spec_entry_text(a[0])[0] == '"') by {
                assert(spec_entry_text(a[0]) =~= quoted(a[0].name) + (":"@ + spec_comp_text(
                    a[0].config,
                )));
                assert(quoted(a[0].name)[0] == '"');
            }
            if a.len() == 1 {
                assert(s1 =~= spec_entry_text(a[0]) + (seq!['}'] + r1));
            } else {
                assert(s1 =~= spec_entry_text(a[0]) + (","@ + spec_entries_text(a.skip(1)) + (
                seq!['}'] + r1)));
            }
        }
    } else {
        lemma_entries_front(a);
        lemma_entries_front(b);
        if a.len() == 1 && b.len() == 1 {
            assert(s1 =~= spec_entry_text(a[0]) + (seq!['}'] + r1));
            assert(s2 =~= spec_entry_text(b[0]) + (seq!['}'] + r2));
            lemma_entry_inj(a[0], b[0], seq!['}'] + r1, seq!['}'] + r2);
            crate::jsontext::lemma_concat_cancel(seq!['}'], r1, r2);
            assert(a =~= b);
        } else if a.len() == 1 {
            assert(s1 =~= spec_entry_text(a[0]) + (seq!['}'] + r1));
            assert(s2 =~= spec_entry_text(b[0]) + (","@ + (spec_entries_text(b.skip(1)) + (
            seq!['}'] + r2))));
            lemma_entry_inj(
                a[0],
                b[0],
                seq!['}'] + r1,
                ","@ + (spec_entries_text(b.skip(1)) + (seq!['}'] + r2)),
            );
            assert((seq!['}'] + r1)[0] == '}');
            assert((","@ + (spec_entries_text(b.skip(1)) + (seq!['}'] + r2)))[0] == ',');
        } else if b.len() == 1 {
            assert(s2 =~= spec_entry_text(b[0]) + (seq!['}'] + r2));
            assert(s1 =~= spec_entry_text(a[0]) + (","@ + (spec_entries_text(a.skip(1)) + (
            seq!['}'] + r1))));
            lemma_entry_inj(
                a[0],
                b[0],
                ","@ + (spec_entries_text(a.skip(1)) + (seq!['}'] + r1)),
                seq!['}'] + r2,
            );
            assert((seq!['}'] + r2)[0] == '}');
            assert((","@ + (spec_entries_text(a.skip(1)) + (seq!['}'] + r1)))[0] == ',');
        } else {
            assert(s1 =~= spec_entry_text(a[0]) + (","@ + (spec_entries_text(a.skip(1)) + (
            seq!['}'] + r1))));
            assert(s2 =~= spec_entry_text(b[0]) + (","@ + (spec_entries_text(b.skip(1)) + (
            seq!['}'] + r2))));
            lemma_entry_inj(
                a[0],
                b[0],
                ","@ + (spec_entries_text(a.skip(1)) + (seq!['}'] + r1)),
                ","@ + (spec_entries_text(b.skip(1)) + (seq!['}'] + r2)),
            );
            crate::jsontext::lemma_concat_cancel(
                ","@,
                spec_entries_text(a.skip(1)) + (seq!['}'] + r1),
                spec_entries_text(b.skip(1)) + (seq!['}'] + r2),
            );
            lemma_entries_inj(a.skip(1), b.skip(1), r1, r2);
            assert(a =~= b) by {
                assert(forall|k: int| 1 <= k < a.len() ==> a[k] == a.skip(1)[k - 1]);
                assert(forall|k: int| 1 <= k < b.len() ==> b[k] == b.skip(1)[k - 1]);
            }
        }
    }
}

/// The registry's persisted text determines the registry: equal texts
/// carry the same version and the same component mapping. Together with
/// `from_json_str`'s contract — the canonical rendering of a well-formed
/// registry always loads, to one that renders to the very text — this is
/// the save/load round trip: a saved registry always loads, and what
/// loads is that registry, omitted optional fields included.
#[verifier::rlimit(100)]
pub proof fn lemma_registry_text_injective(a: DevConfigView, b: DevConfigView)
    requires
        spec_registry_text(a) == spec_registry_text(b),
    ensures
        a.sdk_version == b.sdk_version,
        a.components == b.components,
{
    let headv = "{\"sdk_version\":"@;
    let mid = ",\"components\":{"@;
    let headc = "{\"components\":{"@;
    let t1 = spec_entries_text(a.components) + (seq!['}'] + seq!['}']);
    let t2 = spec_entries_text(b.components) + (seq!['}'] + seq!['}']);
    reveal_strlit("}}");
    reveal_strlit("{\"sdk_version\":");
    reveal_strlit("{\"components\":{");
    assert("}}"@ =~= seq!['}'] + seq!['}']);
    match (a.sdk_version, b.sdk_version) {
        (Some(x), Some(y)) => {
            assert(spec_registry_text(a) =~= headv + (quoted(x) + (mid + t1)));
            assert(spec_registry_text(b) =~= headv + (quoted(y) + (mid + t2)));
            crate::jsontext::lemma_concat_cancel(
                headv,
                quoted(x) + (mid + t1),
                quoted(y) + (mid + t2),
            );
            crate::jsontext::lemma_quoted_inj(x, y, mid + t1, mid + t2);
            crate::jsontext::lemma_concat_cancel(mid, t1, t2);
        },
        (None, None) => {
            assert(spec_registry_text(a) =~= headc + t1);
            assert(spec_registry_text(b) =~= headc + t2);
            crate::jsontext::lemma_concat_cancel(headc, t1, t2);
        },
        (Some(x), None) => {
            assert(spec_registry_text(a)[2] == 's') by {
                assert(spec_registry_text(a) =~= headv + (quoted(x) + (mid + t1)));
                assert((headv + (quoted(x) + (mid + t1)))[2] == headv[2]);
            }
            assert(spec_registry_text(b)[2] == 'c') by {
                assert(spec_registry_text(b) =~= headc + t2);
                assert((headc + t2)[2] == headc[2]);
            }
        },
        (None, Some(y)) => {
            assert(spec_registry_text(b)[2] == 's') by {
                assert(spec_registry_text(b) =~= headv + (quoted(y) + (mid + t2)));
                assert((headv + (quoted(y) + (mid + t2)))[2] == headv[2]);
            }
            assert(spec_registry_text(a)[2] == 'c') by {
                assert(spec_registry_text(a) =~= headc + t1);
                assert((headc + t1)[2] == headc[2]);
            }
        },
    }
    assert(t1 == t2);
    lemma_entries_inj(a.components, b.components, seq!['}'], seq!['}']);
}

/// Renders a component's settings, as `spec_comp_text` describes.
fn comp_text_string(c: &ComponentConfig) -> (r: String)
    ensures
        r@ == spec_comp_text(c@),
{
    let mut s = String::from_str("{\"mode\":");
    match c.mode {
        ComponentMode::Source => s.append("\"source\""),
        ComponentMode::Binary => s.append("\"binary\""),
    }
    proof {
        assert(s@ == "{\"mode\":"@ + spec_mode_text(c@.mode));
    }
    append_opt_field(&mut s, ",\"lib\":", &c.lib);
    append_opt_field(&mut s, ",\"qml\":", &c.qml);
    append_opt_field(&mut s, ",\"plugin\":", &c.plugin);
    append_opt_field(&mut s, ",\"headers\":", &c.headers);
    append_opt_field(&mut s, ",\"bin\":", &c.bin);
    append_opt_field(&mut s, ",\"root\":", &c.root);
    s.append("}");
    s
}

impl DevConfig {
    /// Renders the registry into its persisted text, as
    /// `spec_registry_text` describes.
    pub fn to_json_string(&self) -> (r: String)
        ensures
            r@ == spec_registry_text(self@),
    {
        let mut s = match &self.sdk_version {
            Some(v) => {
                let mut t = String::from_str("{\"sdk_version\":");
                t.append(quote_string(v.as_str()).as_str());
                t.append(",\"components\":{");
                t
            },
            None => String::from_str("{\"components\":{"),
        };
        proof {
            assert(s@ == (match self@.sdk_version {
                Some(v) => "{\"sdk_version\":"@ + quoted(v) + ",\"components\":{"@,
                None => "{\"components\":{"@,
            }));
        }
        let ghost base = s@;
        let n = self.components.len();
        let mut i: usize = 0;
        while i < n
            invariant
                i <= n,
                n == self.components@.len(),
                s@ == base + spec_entries_text(self@.components.take(i as int)),
            decreases n - i,
        {
            if i > 0 {
                s.append(",");
            }
            let e = &self.components[i];
            s.append(quote_string(e.name.as_str()).as_str());
            s.append(":");
            s.append(comp_text_string(&e.config).as_str());
            proof {
                let es = self@.components;
                assert(es.take(i + 1 as int).drop_last() =~= es.take(i as int));
                assert(es.take(i + 1 as int).last() == es[i as int]);
                if i == 0 {
                    assert(spec_entries_text(es.take(1)) == spec_entry_text(es[0]));
                    assert(s@ =~= base + spec_entry_text(es[0]));
                } else {
                    assert(s@ =~= base + (spec_entries_text(es.take(i as int)) + ","@
                        + spec_entry_text(es[i as int])));
                }
            }
            i += 1;
        }
        proof {
            assert(self@.components.take(n as int) =~= self@.components);
        }
        s.append("}}");
        s
    }
}

/// Why a persisted registry text was rejected.
#[derive(Clone, Copy, Debug, PartialEq, Eq, Structural)]
pub enum RegistryParseError {
    /// The text is not the canonical rendering of any registry.
    Malformed,
}

/// The text `x` stands at position `pos` of `s`.
pub open spec fn at_seq(s: Seq<char>, pos: int, x: Seq<char>) -> bool {
    0 <= pos && pos + x.len() <= s.len() && s.subrange(pos, pos + x.len() as int) == x
}

/// A text standing at a position splits into its two halves.
proof fn lemma_at_split(s: Seq<char>, pos: int, a: Seq<char>, b: Seq<char>)
    requires
        at_seq(s, pos, a + b),
    ensures
        at_seq(s, pos, a),
        at_seq(s, pos + a.len(), b),
{
    assert(forall|k: int| 0 <= k < (a + b).len() ==> s[pos + k] == (a + b)[k]) by {
        assert(forall|k: int|
            0 <= k < (a + b).len() ==> s.subrange(pos, pos + (a + b).len() as int)[k] == (a
                + b)[k]);
    }
    assert(s.subrange(pos, pos + a.len() as int) =~= a) by {
        assert(forall|k: int| 0 <= k < a.len() ==> (a + b)[k] == a[k]);
    }
    assert(s.subrange(pos + a.len(), pos + a.len() + b.len() as int) =~= b) by {
        assert(forall|k: int| 0 <= k < b.len() ==> (a + b)[a.len() + k] == b[k]);
        assert(forall|k: int| 0 <= k < b.len() ==> s[pos + a.len() + k] == b[k]);
    }
}

/// Two texts standing end to end stand as their concatenation.
proof fn lemma_at_join(s: Seq<char>, pos: int, a: Seq<char>, b: Seq<char>)
    requires
        at_seq(s, pos, a),
        at_seq(s, pos + a.len(), b),
    ensures
        at_seq(s, pos, a + b),
{
    assert(forall|k: int| 0 <= k < a.len() ==> s[pos + k] == a[k]) by {
        assert(forall|k: int|
            0 <= k < a.len() ==> s.subrange(pos, pos + a.len() as int)[k] == a[k]);
    }
    assert(forall|k: int| 0 <= k < b.len() ==> s[pos + a.len() + k] == b[k]) by {
        assert(forall|k: int|
            0 <= k < b.len() ==> s.subrange(pos + a.len(), pos + a.len() + b.len() as int)[k]
                == b[k]);
    }
    assert(s.subrange(pos, pos + (a + b).len() as int) =~= a + b);
}

/// Consumes an expected literal piece of text: succeeds exactly when the
/// literal stands at the position.
fn eat_lit(s: &Vec<char>, pos: usize, lit: &str) -> (r: Option<usize>)
    ensures
        match r {
            Some(p) => p == pos + lit@.len() && at_seq(s@, pos as int, lit@),
            None => !at_seq(s@, pos as int, lit@),
        },
{
    let lcs = chars_of(lit);
    let n = s.len();
    if lcs.len() > n || pos > n - lcs.len() {
        proof {
            assert(pos + lit@.len() > s@.len());
        }
        return None;
    }
    let mut k: usize = 0;
    while k < lcs.len()
        invariant
            k <= lcs@.len(),
            n == s@.len(),
            lcs@ == lit@,
            pos + lcs@.len() <= n,
            forall|j: int| 0 <= j < k ==> s@[pos + j] == lit@[j],
        decreases lcs@.len() - k,
    {
        if s[pos + k] != lcs[k] {
            proof {
                assert(s@[pos + k as int] != lit@[k as int]);
                if at_seq(s@, pos as int, lit@) {
                    assert(s@.subrange(pos as int, pos + lit@.len() as int)[k as int] == lit@[
                        k as int
                    ]);
                }
            }
            return None;
        }
        k += 1;
    }
    proof {
        assert(s@.subrange(pos as int, pos + lit@.len() as int) =~= lit@);
    }
    Some(pos + lcs.len())
}

/// Whether a component's text stands at the position.
pub open spec fn comp_at(s: Seq<char>, pos: int, c: ComponentView) -> bool {
    at_seq(s, pos, spec_comp_text(c))
}

/// Reads one labelled optional field. The ghost arguments carry the
/// remaining labels and, when the surrounding text is known to be a
/// canonical rendering, the remaining field values; the contract then
/// guarantees the field is read back exactly.
fn parse_field(
    s: &Vec<char>,
    p: usize,
    label: &str,
    Ghost(labels): Ghost<Seq<Seq<char>>>,
    Ghost(ovals): Ghost<Option<Seq<Option<Seq<char>>>>>,
) -> (r: Option<(Option<String>, usize)>)
    requires
        p <= s@.len(),
        labels.len() >= 1,
        labels[0] == label@,
        forall|i: int|
            0 <= i < labels.len() ==> (#[trigger] labels[i]).len() >= 3 && labels[i][0] == ',',
        forall|i: int, j: int|
            0 <= i < j < labels.len() ==> (#[trigger] labels[i])[2] != (#[trigger] labels[j])[2],
        ovals is Some ==> ovals.unwrap().len() == labels.len() && at_seq(
            s@,
            p as int,
            fields_text(labels, ovals.unwrap()) + seq!['}'],
        ),
    ensures
        match r {
            Some((f, q)) => {
                &&& q == p + spec_opt_field(label@, f.deep_view()).len()
                &&& q <= s@.len()
                &&& at_seq(s@, p as int, spec_opt_field(label@, f.deep_view()))
                &&& (ovals is Some ==> f.deep_view() == ovals.unwrap()[0] && at_seq(
                    s@,
                    q as int,
                    fields_text(labels.skip(1), ovals.unwrap().skip(1)) + seq!['}'],
                ))
            },
            None => ovals is None,
        },
{
    let ghost tail0: Seq<char> = seq!['}'];
    match eat_lit(s, p, label) {
        Some(q1) => {
            proof {
                if ovals is Some {
                    let vals = ovals.unwrap();
                    if vals[0] is None {
                        assert(fields_text(labels, vals) == fields_text(
                            labels.skip(1),
                            vals.skip(1),
                        ));
                        lemma_fields_shape(labels.skip(1), vals.skip(1), tail0);
                        if exists|j: int|
                            0 <= j < vals.skip(1).len() && (#[trigger] vals.skip(1)[j]) is Some {
                            let j = choose|j: int|
                                0 <= j < vals.skip(1).len() && (#[trigger] vals.skip(1)[j]) is Some
                                    && (forall|k: int|
                                    0 <= k < j ==> (#[trigger] vals.skip(1)[k]) is None)
                                    && labels.skip(1)[j].is_prefix_of(
                                    fields_text(labels.skip(1), vals.skip(1)) + tail0,
                                );
                            let body = fields_text(labels.skip(1), vals.skip(1)) + tail0;
                            assert(labels.skip(1)[j] == labels[j + 1]);
                            assert(s@[p + 2] == labels[j + 1][2]) by {
                                assert(body[2] == labels[j + 1][2]) by {
                                    assert(labels.skip(1)[j].is_prefix_of(body));
                                    assert(labels.skip(1)[j] =~= body.take(
                                        labels.skip(1)[j].len() as int,
                                    ));
                                }
                                assert(forall|k: int|
                                    0 <= k < body.len() ==> s@[p + k] == body[k]) by {
                                    assert(forall|k: int|
                                        0 <= k < body.len() ==> s@.subrange(
                                            p as int,
                                            p + body.len() as int,
                                        )[k] == body[k]);
                                }
                            }
                            assert(s@[p + 2] == label@[2]) by {
                                assert(at_seq(s@, p as int, label@));
                                assert(s@.subrange(p as int, p + label@.len() as int)[2]
                                    == label@[2]);
                            }
                            assert(labels[0][2] != labels[j + 1][2]);
                            assert(false);
                        } else {
                            assert(fields_text(labels.skip(1), vals.skip(1)) == Seq::<
                                char,
                            >::empty());
                            let body = fields_text(labels.skip(1), vals.skip(1)) + tail0;
                            assert(body =~= tail0);
                            assert(s@[p + 0] == '}') by {
                                assert(forall|k: int|
                                    0 <= k < body.len() ==> s@.subrange(
                                        p as int,
                                        p + body.len() as int,
                                    )[k] == body[k]);
                            }
                            assert(s@[p + 0] == ',') by {
                                assert(at_seq(s@, p as int, label@));
                                assert(s@.subrange(p as int, p + label@.len() as int)[0]
                                    == label@[0]);
                            }
                            assert(false);
                        }
                    }
                    let v = vals[0].unwrap();
                    assert(fields_text(labels, vals) + tail0 =~= labels[0] + (quoted(v) + (
                    fields_text(labels.skip(1), vals.skip(1)) + tail0)));
                    lemma_at_split(
                        s@,
                        p as int,
                        labels[0],
                        quoted(v) + (fields_text(labels.skip(1), vals.skip(1)) + tail0),
                    );
                    lemma_at_split(
                        s@,
                        p + labels[0].len(),
                        quoted(v),
                        fields_text(labels.skip(1), vals.skip(1)) + tail0,
                    );
                    assert(q1 == p + labels[0].len());
                    assert(at_seq(s@, q1 as int, quoted(v)));
                    let pad = s@.take(q1 as int);
                    let rest = s@.skip(q1 + quoted(v).len() as int);
                    assert(s@ =~= pad + quoted(v) + rest) by {
                        assert(forall|k: int|
                            0 <= k < quoted(v).len() ==> s@[q1 + k] == quoted(v)[k]) by {
                            assert(forall|k: int|
                                0 <= k < quoted(v).len() ==> s@.subrange(
                                    q1 as int,
                                    q1 + quoted(v).len() as int,
                                )[k] == quoted(v)[k]);
                        }
                    }
                    crate::jsontext::lemma_parse_quoted(pad, v, rest);
                    assert(crate::jsontext::spec_parse_string(s@, q1 as int) == Some(
                        (v, q1 + quoted(v).len() as int),
                    ));
                }
            }
            match parse_string(s, q1) {
                Some((v, q2)) => {
                    proof {
                        crate::jsontext::lemma_parse_string_sound(s@, q1 as int);
                        assert(at_seq(s@, q1 as int, quoted(v@)));
                        assert(at_seq(s@, p as int, label@));
                        lemma_at_join(s@, p as int, label@, quoted(v@));
                        assert(spec_opt_field(label@, Some(v@)) == label@ + quoted(v@));
                        if ovals is Some {
                            let vals = ovals.unwrap();
                            let v0 = vals[0].unwrap();
                            assert(v@ == v0 && q2 == q1 + quoted(v0).len());
                            assert(at_seq(
                                s@,
                                q2 as int,
                                fields_text(labels.skip(1), vals.skip(1)) + tail0,
                            ));
                        }
                    }
                    Some((Some(v), q2))
                },
                None => {
                    proof {
                        if ovals is Some {
                            assert(false);
                        }
                    }
                    None
                },
            }
        },
        None => {
            proof {
                if ovals is Some {
                    let vals = ovals.unwrap();
                    if vals[0] is Some {
                        let v = vals[0].unwrap();
                        assert(fields_text(labels, vals) + tail0 =~= labels[0] + (quoted(v) + (
                        fields_text(labels.skip(1), vals.skip(1)) + tail0)));
                        lemma_at_split(
                            s@,
                            p as int,
                            labels[0],
                            quoted(v) + (fields_text(labels.skip(1), vals.skip(1)) + tail0),
                        );
                        assert(false);
                    }
                    assert(fields_text(labels, vals) == fields_text(labels.skip(1), vals.skip(1)));
                }
                assert(spec_opt_field(label@, None::<Seq<char>>) == Seq::<char>::empty());
                assert(s@.subrange(p as int, p as int) =~= Seq::<char>::empty());
                assert(at_seq(s@, p as int, Seq::<char>::empty()));
            }
            Some((None, p))
        },
    }
}

/// Reads a component object: succeeds on every canonical component text,
/// and whatever it accepts is the exact rendering of what it returns.
#[verifier::rlimit(100)]
fn parse_component(s: &Vec<char>, pos: usize) -> (r: Option<(ComponentConfig, usize)>)
    requires
        pos <= s@.len(),
    ensures
        match r {
            Some((c, end)) => pos < end <= s@.len() && comp_at(s@, pos as int, c@) && end == pos
                + spec_comp_text(c@).len(),
            None => forall|c: ComponentView| !comp_at(s@, pos as int, c),
        },
{
    proof {
        reveal_strlit("{\"mode\":");
        reveal_strlit("\"binary\"");
        reveal_strlit("\"source\"");
        lemma_comp_labels_distinct();
    }
    let ghost oc: Option<ComponentView> = if exists|c: ComponentView|
        comp_at(s@, pos as int, c) {
        Some(choose|c: ComponentView| comp_at(s@, pos as int, c))
    } else {
        None
    };
    proof {
        if oc is Some {
            let c0 = oc.unwrap();
            lemma_comp_text_shape(c0);
            assert(spec_comp_text(c0) =~= "{\"mode\":"@ + (spec_mode_text(c0.mode) + (
            fields_text(comp_labels(), comp_vals(c0)) + seq!['}'])));
            lemma_at_split(
                s@,
                pos as int,
                "{\"mode\":"@,
                spec_mode_text(c0.mode) + (fields_text(comp_labels(), comp_vals(c0)) + seq!['}']),
            );
        }
    }
    let p0 = match eat_lit(s, pos, "{\"mode\":") {
        Some(p) => p,
        None => {
            proof {
                assert forall|c: ComponentView| !comp_at(s@, pos as int, c) by {
                    if comp_at(s@, pos as int, c) {
                        assert(oc is Some);
                    }
                }
            }
            return None;
        },
    };
    proof {
        if oc is Some {
            let c0 = oc.unwrap();
            lemma_at_split(
                s@,
                p0 as int,
                spec_mode_text(c0.mode),
                fields_text(comp_labels(), comp_vals(c0)) + seq!['}'],
            );
        }
    }
    let (mode, p1) = match eat_lit(s, p0, "\"binary\"") {
        Some(p) => (ComponentMode::Binary, p),
        None => {
            match eat_lit(s, p0, "\"source\"") {
                Some(p) => (ComponentMode::Source, p),
                None => {
                    proof {
                        assert forall|c: ComponentView| !comp_at(s@, pos as int, c) by {
                            if comp_at(s@, pos as int, c) {
                                assert(oc is Some);
                                let c0 = oc.unwrap();
                                assert(at_seq(s@, p0 as int, spec_mode_text(c0.mode)));
                            }
                        }
                    }
                    return None;
                },
            }
        },
    };
    proof {
        if oc is Some {
            let c0 = oc.unwrap();
            assert(at_seq(s@, p0 as int, spec_mode_text(c0.mode)));
            assert(c0.mode == mode) by {
                if c0.mode != mode {
                    assert(s@[p0 + 1] == spec_mode_text(c0.mode)[1]) by {
                        assert(s@.subrange(p0 as int, p0 + spec_mode_text(c0.mode).len() as int)[1]
                            == spec_mode_text(c0.mode)[1]);
                    }
                    assert(s@[p0 + 1] == spec_mode_text(mode)[1]) by {
                        assert(at_seq(s@, p0 as int, spec_mode_text(mode)));
                        assert(s@.subrange(p0 as int, p0 + spec_mode_text(mode).len() as int)[1]
                            == spec_mode_text(mode)[1]);
                    }
                }
            }
            assert(p1 == p0 + spec_mode_text(c0.mode).len());
            assert(at_seq(
                s@,
                p1 as int,
                fields_text(comp_labels(), comp_vals(c0)) + seq!['}'],
            ));
        }
    }
    let ghost gl0: Seq<Seq<char>> = comp_labels();
    let ghost gv0: Option<Seq<Option<Seq<char>>>> = match oc {
        Some(c0) => Some(comp_vals(c0)),
        None => None,
    };
    let (f_lib, p2) = match parse_field(s, p1, ",\"lib\":", Ghost(gl0), Ghost(gv0)) {
        Some(x) => x,
        None => {
            proof {
                assert(oc is None);
                assert forall|c: ComponentView| !comp_at(s@, pos as int, c) by {
                    if comp_at(s@, pos as int, c) {
                        assert(oc is Some);
                    }
                }
            }
            return None;
        },
    };
    let ghost gl1 = gl0.skip(1);
    let ghost gv1: Option<Seq<Option<Seq<char>>>> = match gv0 {
        Some(v) => Some(v.skip(1)),
        None => None,
    };
    proof {
        assert(gl1[0] == ",\"qml\":"@);
        lemma_labels_suffix(gl0);
    }
    let (f_qml, p3) = match parse_field(s, p2, ",\"qml\":", Ghost(gl1), Ghost(gv1)) {
        Some(x) => x,
        None => {
            proof {
                assert(gv1 is None && oc is None);
                assert forall|c: ComponentView| !comp_at(s@, pos as int, c) by {
                    if comp_at(s@, pos as int, c) {
                        assert(oc is Some);
                    }
                }
            }
            return None;
        },
    };
    let ghost gl2 = gl1.skip(1);
    let ghost gv2: Option<Seq<Option<Seq<char>>>> = match gv1 {
        Some(v) => Some(v.skip(1)),
        None => None,
    };
    proof {
        assert(gl2[0] == ",\"plugin\":"@);
        lemma_labels_suffix(gl1);
    }
    let (f_plugin, p4) = match parse_field(s, p3, ",\"plugin\":", Ghost(gl2), Ghost(gv2)) {
        Some(x) => x,
        None => {
            proof {
                assert(gv2 is None && gv1 is None && oc is None);
                assert forall|c: ComponentView| !comp_at(s@, pos as int, c) by {
                    if comp_at(s@, pos as int, c) {
                        assert(oc is Some);
                    }
                }
            }
            return None;
        },
    };
    let ghost gl3 = gl2.skip(1);
    let ghost gv3: Option<Seq<Option<Seq<char>>>> = match gv2 {
        Some(v) => Some(v.skip(1)),
        None => None,
    };
    proof {
        assert(gl3[0] == ",\"headers\":"@);
        lemma_labels_suffix(gl2);
    }
    let (f_headers, p5) = match parse_field(s, p4, ",\"headers\":", Ghost(gl3), Ghost(gv3)) {
        Some(x) => x,
        None => {
            proof {
                assert(gv3 is None && gv2 is None && gv1 is None && oc is None);
                assert forall|c: ComponentView| !comp_at(s@, pos as int, c) by {
                    if comp_at(s@, pos as int, c) {
                        assert(oc is Some);
                    }
                }
            }
            return None;
        },
    };
    let ghost gl4 = gl3.skip(1);
    let ghost gv4: Option<Seq<Option<Seq<char>>>> = match gv3 {
        Some(v) => Some(v.skip(1)),
        None => None,
    };
    proof {
        assert(gl4[0] == ",\"bin\":"@);
        lemma_labels_suffix(gl3);
    }
    let (f_bin, p6) = match parse_field(s, p5, ",\"bin\":", Ghost(gl4), Ghost(gv4)) {
        Some(x) => x,
        None => {
            proof {
                assert(gv4 is None && gv3 is None && gv2 is None && gv1 is None && oc is None);
                assert forall|c: ComponentView| !comp_at(s@, pos as int, c) by {
                    if comp_at(s@, pos as int, c) {
                        assert(oc is Some);
                    }
                }
            }
            return None;
        },
    };
    let ghost gl5 = gl4.skip(1);
    let ghost gv5: Option<Seq<Option<Seq<char>>>> = match gv4 {
        Some(v) => Some(v.skip(1)),
        None => None,
    };
    proof {
        assert(gl5[0] == ",\"root\":"@);
        lemma_labels_suffix(gl4);
    }
    let (f_root, p7) = match parse_field(s, p6, ",\"root\":", Ghost(gl5), Ghost(gv5)) {
        Some(x) => x,
        None => {
            proof {
                assert(gv5 is None && gv4 is None && gv3 is None && gv2 is None && gv1 is None
                    && oc is None);
                assert forall|c: ComponentView| !comp_at(s@, pos as int, c) by {
                    if comp_at(s@, pos as int, c) {
                        assert(oc is Some);
                    }
                }
            }
            return None;
        },
    };
    proof {
        if oc is Some {
            let vals5 = gv5.unwrap();
            assert(gl5.skip(1).len() == 0);
            assert(fields_text(gl5.skip(1), vals5.skip(1)) == Seq::<char>::empty());
            assert(fields_text(gl5.skip(1), vals5.skip(1)) + seq!['}'] =~= seq!['}']);
            assert(at_seq(s@, p7 as int, seq!['}']));
        }
    }
    match eat_lit(s, p7, "}") {
        Some(end) => {
            let c = ComponentConfig {
                mode,
                lib: f_lib,
                qml: f_qml,
                plugin: f_plugin,
                headers: f_headers,
                bin: f_bin,
                root: f_root,
            };
            proof {
                reveal_strlit("}");
                assert("}"@ =~= seq!['}']);
                assert(at_seq(s@, p7 as int, seq!['}']));
                lemma_comp_assemble(
                    s@,
                    pos as int,
                    p0 as int,
                    p1 as int,
                    p2 as int,
                    p3 as int,
                    p4 as int,
                    p5 as int,
                    p6 as int,
                    p7 as int,
                    end as int,
                    c@,
                );
            }
            Some((c, end))
        },
        None => {
            proof {
                reveal_strlit("}");
                assert("}"@ =~= seq!['}']);
                assert(oc is None) by {
                    if oc is Some {
                        assert(at_seq(s@, p7 as int, seq!['}']));
                        assert(at_seq(s@, p7 as int, "}"@));
                    }
                }
                assert forall|c: ComponentView| !comp_at(s@, pos as int, c) by {
                    if comp_at(s@, pos as int, c) {
                        assert(oc is Some);
                    }
                }
            }
            None
        },
    }
}

/// The consumed pieces of a component text join back into the whole:
/// head, mode, the six fields and the closing brace, standing end to end,
/// form exactly the component's rendering.
#[verifier::rlimit(100)]
proof fn lemma_comp_assemble(
    s: Seq<char>,
    pos: int,
    p0: int,
    p1: int,
    p2: int,
    p3: int,
    p4: int,
    p5: int,
    p6: int,
    p7: int,
    end: int,
    c: ComponentView,
)
    requires
        at_seq(s, pos, "{\"mode\":"@),
        p0 == pos + "{\"mode\":"@.len(),
        at_seq(s, p0, spec_mode_text(c.mode)),
        p1 == p0 + spec_mode_text(c.mode).len(),
        at_seq(s, p1, spec_opt_field(",\"lib\":"@, c.lib)),
        p2 == p1 + spec_opt_field(",\"lib\":"@, c.lib).len(),
        at_seq(s, p2, spec_opt_field(",\"qml\":"@, c.qml)),
        p3 == p2 + spec_opt_field(",\"qml\":"@, c.qml).len(),
        at_seq(s, p3, spec_opt_field(",\"plugin\":"@, c.plugin)),
        p4 == p3 + spec_opt_field(",\"plugin\":"@, c.plugin).len(),
        at_seq(s, p4, spec_opt_field(",\"headers\":"@, c.headers)),
        p5 == p4 + spec_opt_field(",\"headers\":"@, c.headers).len(),
        at_seq(s, p5, spec_opt_field(",\"bin\":"@, c.bin)),
        p6 == p5 + spec_opt_field(",\"bin\":"@, c.bin).len(),
        at_seq(s, p6, spec_opt_field(",\"root\":"@, c.root)),
        p7 == p6 + spec_opt_field(",\"root\":"@, c.root).len(),
        at_seq(s, p7, seq!['}']),
        end == p7 + 1,
    ensures
        comp_at(s, pos, c),
        end == pos + spec_comp_text(c).len(),
{
    lemma_comp_text_shape(c);
    lemma_fields_text_unfold(c);
    lemma_at_join(s, pos, "{\"mode\":"@, spec_mode_text(c.mode));
    let a0 = "{\"mode\":"@ + spec_mode_text(c.mode);
    lemma_at_join(
        s,
        p5,
        spec_opt_field(",\"bin\":"@, c.bin),
        spec_opt_field(",\"root\":"@, c.root),
    );
    let b5 = spec_opt_field(",\"bin\":"@, c.bin) + spec_opt_field(",\"root\":"@, c.root);
    lemma_at_join(s, p4, spec_opt_field(",\"headers\":"@, c.headers), b5);
    let b4 = spec_opt_field(",\"headers\":"@, c.headers) + b5;
    lemma_at_join(s, p3, spec_opt_field(",\"plugin\":"@, c.plugin), b4);
    let b3 = spec_opt_field(",\"plugin\":"@, c.plugin) + b4;
    lemma_at_join(s, p2, spec_opt_field(",\"qml\":"@, c.qml), b3);
    let b2 = spec_opt_field(",\"qml\":"@, c.qml) + b3;
    lemma_at_join(s, p1, spec_opt_field(",\"lib\":"@, c.lib), b2);
    let b1 = spec_opt_field(",\"lib\":"@, c.lib) + b2;
    assert(b1 =~= fields_text(comp_labels(), comp_vals(c)));
    lemma_at_join(s, pos, a0, b1);
    lemma_at_join(s, pos, a0 + b1, seq!['}']);
    assert(spec_comp_text(c) =~= (a0 + b1) + seq!['}']);
    assert(comp_at(s, pos, c));
}

/// A label suffix keeps the shape conditions of the whole list.
proof fn lemma_labels_suffix(labels: Seq<Seq<char>>)
    requires
        labels.len() >= 1,
        forall|i: int|
            0 <= i < labels.len() ==> (#[trigger] labels[i]).len() >= 3 && labels[i][0] == ',',
        forall|i: int, j: int|
            0 <= i < j < labels.len() ==> (#[trigger] labels[i])[2] != (#[trigger] labels[j])[2],
    ensures
        forall|i: int|
            0 <= i < labels.skip(1).len() ==> (#[trigger] labels.skip(1)[i]).len() >= 3
                && labels.skip(1)[i][0] == ',',
        forall|i: int, j: int|
            0 <= i < j < labels.skip(1).len() ==> (#[trigger] labels.skip(1)[i])[2] != (
            #[trigger] labels.skip(1)[j])[2],
{
    assert(forall|i: int| 0 <= i < labels.skip(1).len() ==> labels.skip(1)[i] == labels[i + 1]);
}


/// Whether every entry name is distinct.
fn names_unique(v: &Vec<ComponentEntry>) -> (r: bool)
    ensures
        r == (forall|i: int, j: int|
            0 <= i < j < v.deep_view().len() ==> (#[trigger] v.deep_view()[i]).name != (
            #[trigger] v.deep_view()[j]).name),
{
    let n = v.len();
    let mut i: usize = 0;
    while i < n
        invariant
            i <= n,
            n == v@.len(),
            forall|a: int, b: int|
                0 <= a < b < v.deep_view().len() && a < i ==> (#[trigger] v.deep_view()[a]).name
                    != (#[trigger] v.deep_view()[b]).name,
        decreases n - i,
    {
        let mut j: usize = i + 1;
        while j < n
            invariant
                i < j <= n,
                n == v@.len(),
                forall|b: int|
                    i < b < j ==> (#[trigger] v.deep_view()[b]).name != v.deep_view()[i as int].name,
            decreases n - j,
        {
            if str_eq(v[i].name.as_str(), v[j].name.as_str()) {
                proof {
                    assert(v.deep_view()[i as int].name == v.deep_view()[j as int].name);
                }
                return false;
            }
            j += 1;
        }
        i += 1;
    }
    true
}

/// Two component texts at the same position are the same component.
proof fn lemma_comp_at_unique(s: Seq<char>, pos: int, a: ComponentView, b: ComponentView)
    requires
        comp_at(s, pos, a),
        comp_at(s, pos, b),
    ensures
        a == b,
{
    assert(s.skip(pos) =~= spec_comp_text(a) + s.skip(pos + spec_comp_text(a).len() as int)) by {
        assert(forall|j: int|
            0 <= j < spec_comp_text(a).len() ==> s[pos + j] == spec_comp_text(a)[j]) by {
            assert(forall|j: int|
                0 <= j < spec_comp_text(a).len() ==> s.subrange(
                    pos,
                    pos + spec_comp_text(a).len() as int,
                )[j] == spec_comp_text(a)[j]);
        }
    }
    assert(s.skip(pos) =~= spec_comp_text(b) + s.skip(pos + spec_comp_text(b).len() as int)) by {
        assert(forall|j: int|
            0 <= j < spec_comp_text(b).len() ==> s[pos + j] == spec_comp_text(b)[j]) by {
            assert(forall|j: int|
                0 <= j < spec_comp_text(b).len() ==> s.subrange(
                    pos,
                    pos + spec_comp_text(b).len() as int,
                )[j] == spec_comp_text(b)[j]);
        }
    }
    lemma_comp_inj(
        a,
        b,
        s.skip(pos + spec_comp_text(a).len() as int),
        s.skip(pos + spec_comp_text(b).len() as int),
    );
}

/// What one entry of the component mapping looks like at its position:
/// the quoted name, the separator, the component text, and then either
/// the closing braces or a comma and the remaining entries.
#[verifier::rlimit(100)]
proof fn lemma_entry_step(text: Seq<char>, p: int, es: Seq<EntryView>, k: int)
    requires
        0 <= k < es.len(),
        at_seq(text, p, spec_entries_text(es.skip(k)) + "}}"@),
        p + (spec_entries_text(es.skip(k)) + "}}"@).len() == text.len(),
    ensures
        ({
            let nm = es[k].name;
            let q1 = p + quoted(nm).len() as int;
            let q2 = q1 + ":"@.len() as int;
            let q3 = q2 + spec_comp_text(es[k].config).len() as int;
            &&& crate::jsontext::spec_parse_string(text, p) == Some((nm, q1))
            &&& at_seq(text, q1, ":"@)
            &&& comp_at(text, q2, es[k].config)
            &&& (es.skip(k).len() == 1 ==> at_seq(text, q3, "}"@ + "}"@) && text[q3] == '}' && q3
                + 2 == text.len())
            &&& (es.skip(k).len() > 1 ==> at_seq(text, q3, ","@) && text[q3] == ',' && at_seq(
                text,
                q3 + 1,
                spec_entries_text(es.skip(k + 1)) + "}}"@,
            ) && (q3 + 1) + (spec_entries_text(es.skip(k + 1)) + "}}"@).len() == text.len())
        }),
{
    reveal_strlit("}");
    reveal_strlit("}}");
    reveal_strlit(",");
    reveal_strlit(":");
    assert("}}"@ =~= "}"@ + "}"@);
    lemma_entries_front(es.skip(k));
    assert(es.skip(k)[0] == es[k]);
    let nm = es[k].name;
    let q1 = p + quoted(nm).len() as int;
    let q2 = q1 + ":"@.len() as int;
    let q3 = q2 + spec_comp_text(es[k].config).len() as int;
    if es.skip(k).len() == 1 {
        assert(spec_entries_text(es.skip(k)) + "}}"@ =~= quoted(nm) + (":"@ + (spec_comp_text(
            es[k].config,
        ) + ("}"@ + "}"@))));
        lemma_at_split(
            text,
            p,
            quoted(nm),
            ":"@ + (spec_comp_text(es[k].config) + ("}"@ + "}"@)),
        );
        lemma_at_split(text, q1, ":"@, spec_comp_text(es[k].config) + ("}"@ + "}"@));
        lemma_at_split(text, q2, spec_comp_text(es[k].config), "}"@ + "}"@);
        assert(text[q3] == '}') by {
            assert(text.subrange(q3, q3 + 2)[0] == ("}"@ + "}"@)[0]);
        }
    } else {
        assert(es.skip(k).skip(1) =~= es.skip(k + 1));
        assert(spec_entries_text(es.skip(k)) + "}}"@ =~= quoted(nm) + (":"@ + (spec_comp_text(
            es[k].config,
        ) + (","@ + (spec_entries_text(es.skip(k + 1)) + "}}"@)))));
        lemma_at_split(
            text,
            p,
            quoted(nm),
            ":"@ + (spec_comp_text(es[k].config) + (","@ + (spec_entries_text(es.skip(k + 1))
                + "}}"@))),
        );
        lemma_at_split(
            text,
            q1,
            ":"@,
            spec_comp_text(es[k].config) + (","@ + (spec_entries_text(es.skip(k + 1)) + "}}"@)),
        );
        lemma_at_split(
            text,
            q2,
            spec_comp_text(es[k].config),
            ","@ + (spec_entries_text(es.skip(k + 1)) + "}}"@),
        );
        lemma_at_split(text, q3, ","@, spec_entries_text(es.skip(k + 1)) + "}}"@);
        assert(text[q3] == ',') by {
            assert(text.subrange(q3, q3 + 1)[0] == (","@)[0]);
        }
    }
    let pad = text.take(p);
    let rest = text.skip(q1);
    assert(text =~= pad + quoted(nm) + rest) by {
        assert(forall|j: int| 0 <= j < quoted(nm).len() ==> text[p + j] == quoted(nm)[j]) by {
            assert(forall|j: int|
                0 <= j < quoted(nm).len() ==> text.subrange(p, p + quoted(nm).len() as int)[j]
                    == quoted(nm)[j]);
        }
    }
    crate::jsontext::lemma_parse_quoted(pad, nm, rest);
}

/// The position where a registry text's entries begin: after the head,
/// the quoted version and the components opener when a version is set,
/// else right after the bare components opener.
pub open spec fn spec_entries_pos(g: DevConfigView) -> int {
    match g.sdk_version {
        Some(v) => "{\"sdk_version\":"@.len() + quoted(v).len() + ",\"components\":{"@.len()
            as int,
        None => "{\"components\":{"@.len() as int,
    }
}

/// How a registry's rendering is laid out: the head (carrying the quoted
/// version exactly when one is set), the components opener, the entries
/// and the two closing braces, each at its position.
#[verifier::rlimit(100)]
proof fn lemma_registry_shape(g: DevConfigView, text: Seq<char>)
    requires
        spec_registry_text(g) == text,
    ensures
        ({
            let p0 = "{\"sdk_version\":"@.len() as int;
            let p2 = spec_entries_pos(g);
            &&& (g.sdk_version is Some ==> at_seq(text, 0, "{\"sdk_version\":"@)
                && crate::jsontext::spec_parse_string(text, p0) == Some(
                (g.sdk_version.unwrap(), p0 + quoted(g.sdk_version.unwrap()).len() as int),
            ) && at_seq(
                text,
                p0 + quoted(g.sdk_version.unwrap()).len() as int,
                ",\"components\":{"@,
            ) && text[2] == 's')
            &&& (g.sdk_version is None ==> at_seq(text, 0, "{\"components\":{"@) && text[2]
                == 'c')
            &&& at_seq(text, p2, spec_entries_text(g.components) + "}}"@)
            &&& p2 + (spec_entries_text(g.components) + "}}"@).len() == text.len()
            &&& (g.components.len() == 0 ==> at_seq(text, p2, "}"@) && at_seq(text, p2 + 1, "}"@)
                && p2 + 2 == text.len())
            &&& (g.components.len() > 0 ==> text[p2] == '"')
        }),
{
    reveal_strlit("}");
    reveal_strlit("}}");
    reveal_strlit("{\"sdk_version\":");
    reveal_strlit("{\"components\":{");
    let p2 = spec_entries_pos(g);
    assert(at_seq(text, 0, text)) by {
        assert(text.subrange(0, text.len() as int) =~= text);
    }
    match g.sdk_version {
        Some(v) => {
            let p0 = "{\"sdk_version\":"@.len() as int;
            assert(text =~= "{\"sdk_version\":"@ + (quoted(v) + (",\"components\":{"@ + (
            spec_entries_text(g.components) + "}}"@))));
            lemma_at_split(
                text,
                0,
                "{\"sdk_version\":"@,
                quoted(v) + (",\"components\":{"@ + (spec_entries_text(g.components) + "}}"@)),
            );
            lemma_at_split(
                text,
                p0,
                quoted(v),
                ",\"components\":{"@ + (spec_entries_text(g.components) + "}}"@),
            );
            lemma_at_split(
                text,
                p0 + quoted(v).len(),
                ",\"components\":{"@,
                spec_entries_text(g.components) + "}}"@,
            );
            let pad = text.take(p0);
            let rest = text.skip(p0 + quoted(v).len() as int);
            assert(text =~= pad + quoted(v) + rest) by {
                assert(forall|k: int|
                    0 <= k < quoted(v).len() ==> text[p0 + k] == quoted(v)[k]) by {
                    assert(forall|k: int|
                        0 <= k < quoted(v).len() ==> text.subrange(
                            p0,
                            p0 + quoted(v).len() as int,
                        )[k] == quoted(v)[k]);
                }
            }
            crate::jsontext::lemma_parse_quoted(pad, v, rest);
            assert(text[2] == 's') by {
                assert(text.subrange(0, p0)[2] == ("{\"sdk_version\":"@)[2]);
            }
        },
        None => {
            assert(text =~= "{\"components\":{"@ + (spec_entries_text(g.components) + "}}"@));
            lemma_at_split(
                text,
                0,
                "{\"components\":{"@,
                spec_entries_text(g.components) + "}}"@,
            );
            assert(text[2] == 'c') by {
                assert(text.subrange(0, p2)[2] == ("{\"components\":{"@)[2]);
            }
        },
    }
    if g.components.len() == 0 {
        assert(spec_entries_text(g.components) =~= Seq::<char>::empty());
        assert(spec_entries_text(g.components) + "}}"@ =~= "}"@ + "}"@);
        lemma_at_split(text, p2, "}"@, "}"@);
    } else {
        assert(g.components.skip(0) =~= g.components);
        lemma_entry_step(text, p2, g.components, 0);
        assert(text[p2] == '"') by {
            assert(crate::jsontext::spec_parse_string(text, p2) is Some);
        }
    }
}

impl DevConfig {
    /// The canonical reading: succeeds exactly when the text is the
    /// canonical rendering of a well-formed registry, and then returns
    /// the registry that rendered it.
    #[verifier::rlimit(100)]
    fn parse_canonical(text: &str) -> (r: Result<DevConfig, RegistryParseError>)
        ensures
            match r {
                Ok(cfg) => cfg@.wf() && spec_registry_text(cfg@) == text@,
                Err(e) => e == RegistryParseError::Malformed && (forall|g: DevConfigView|
                    g.wf() ==> spec_registry_text(g) != text@),
            },
    {
        let s = chars_of(text);
        proof {
            reveal_strlit("}");
            reveal_strlit("{\"sdk_version\":");
            reveal_strlit("{\"components\":{");
        }
        let ghost og: Option<DevConfigView> = if exists|g: DevConfigView|
            #[trigger] g.wf() && spec_registry_text(g) == text@ {
            Some(
                choose|g: DevConfigView| #[trigger] g.wf() && spec_registry_text(g) == text@,
            )
        } else {
            None
        };
        proof {
            if og is Some {
                lemma_registry_shape(og.unwrap(), text@);
            }
        }
        let (sdk_version, p2): (Option<String>, usize) = match eat_lit(
            &s,
            0,
            "{\"sdk_version\":",
        ) {
            Some(p0) => {
                proof {
                    if og is Some && og.unwrap().sdk_version is None {
                        assert(text@[2] == ("{\"sdk_version\":"@)[2]) by {
                            assert(text@.subrange(0, "{\"sdk_version\":"@.len() as int)[2] == (
                            "{\"sdk_version\":"@)[2]);
                        }
                        assert(false);
                    }
                }
                match parse_string(&s, p0) {
                    Some((v, p1)) => {
                        proof {
                            if og is Some {
                                let g = og.unwrap();
                                assert(v@ == g.sdk_version.unwrap());
                                assert(p1 == p0 + quoted(g.sdk_version.unwrap()).len());
                            }
                        }
                        match eat_lit(&s, p1, ",\"components\":{") {
                            Some(p) => (Some(v), p),
                            None => {
                                proof {
                                    if og is Some {
                                        assert(false);
                                    }
                                    lemma_no_canonical(og, text@);
                                }
                                return Err(RegistryParseError::Malformed);
                            },
                        }
                    },
                    None => {
                        proof {
                            if og is Some {
                                assert(false);
                            }
                            lemma_no_canonical(og, text@);
                        }
                        return Err(RegistryParseError::Malformed);
                    },
                }
            },
            None => {
                proof {
                    if og is Some && og.unwrap().sdk_version is Some {
                        assert(false);
                    }
                }
                match eat_lit(&s, 0, "{\"components\":{") {
                    Some(p) => (None, p),
                    None => {
                        proof {
                            if og is Some {
                                assert(false);
                            }
                            lemma_no_canonical(og, text@);
                        }
                        return Err(RegistryParseError::Malformed);
                    },
                }
            },
        };
        proof {
            if og is Some {
                let g = og.unwrap();
                assert(sdk_version.deep_view() == g.sdk_version);
                assert(p2 == spec_entries_pos(g));
            }
        }
        let mut entries: Vec<ComponentEntry> = Vec::new();
        let mut p: usize = p2;
        let first_close = eat_lit(&s, p, "}");
        match first_close {
            Some(q) => {
                proof {
                    if og is Some {
                        let g = og.unwrap();
                        if g.components.len() > 0 {
                            assert(text@[p2 as int] == '}') by {
                                assert(text@.subrange(p2 as int, p2 + 1)[0] == ("}"@)[0]);
                            }
                            assert(false);
                        }
                        assert(entries.deep_view() =~= g.components);
                        assert(at_seq(text@, q as int, "}"@));
                        assert(q + 1 == text@.len());
                    }
                }
                p = q;
            },
            None => {
                proof {
                    if og is Some {
                        let g = og.unwrap();
                        if g.components.len() == 0 {
                            assert(false);
                        }
                        assert(g.components.skip(0) =~= g.components);
                        assert(g.components.take(0) =~= Seq::<EntryView>::empty());
                        assert(entries.deep_view() =~= g.components.take(0));
                    }
                }
                loop
                    invariant_except_break
                        og is Some ==> ({
                            let g = og.unwrap();
                            &&& g.wf()
                            &&& spec_registry_text(g) == text@
                            &&& entries.deep_view().len() < g.components.len()
                            &&& entries.deep_view() == g.components.take(
                                entries.deep_view().len() as int,
                            )
                            &&& at_seq(
                                text@,
                                p as int,
                                spec_entries_text(
                                    g.components.skip(entries.deep_view().len() as int),
                                ) + "}}"@,
                            )
                            &&& p + (spec_entries_text(
                                g.components.skip(entries.deep_view().len() as int),
                            ) + "}}"@).len() == text@.len()
                        }),
                    invariant
                        p <= s@.len(),
                        s@ == text@,
                        og == (if exists|g: DevConfigView|
                            #[trigger] g.wf() && spec_registry_text(g) == text@ {
                            Some(
                                choose|g: DevConfigView|
                                    #[trigger] g.wf() && spec_registry_text(g) == text@,
                            )
                        } else {
                            None::<DevConfigView>
                        }),
                    ensures
                        p <= s@.len(),
                        s@ == text@,
                        og is Some ==> ({
                            let g = og.unwrap();
                            &&& entries.deep_view() == g.components
                            &&& at_seq(text@, p as int, "}"@)
                            &&& p + 1 == text@.len()
                        }),
                    decreases s@.len() - p,
                {
                    let ghost k = entries.deep_view().len() as int;
                    proof {
                        if og is Some {
                            let g = og.unwrap();
                            lemma_entry_step(text@, p as int, g.components, k);
                        }
                    }
                    let (name, q1) = match parse_string(&s, p) {
                        Some(v) => v,
                        None => {
                            proof {
                                if og is Some {
                                    assert(false);
                                }
                                lemma_no_canonical(og, text@);
                            }
                            return Err(RegistryParseError::Malformed);
                        },
                    };
                    let q2 = match eat_lit(&s, q1, ":") {
                        Some(q) => q,
                        None => {
                            proof {
                                if og is Some {
                                    assert(false);
                                }
                                lemma_no_canonical(og, text@);
                            }
                            return Err(RegistryParseError::Malformed);
                        },
                    };
                    let (config, q3) = match parse_component(&s, q2) {
                        Some(v) => v,
                        None => {
                            proof {
                                if og is Some {
                                    let g = og.unwrap();
                                    assert(comp_at(text@, q2 as int, g.components[k].config));
                                    assert(false);
                                }
                                lemma_no_canonical(og, text@);
                            }
                            return Err(RegistryParseError::Malformed);
                        },
                    };
                    proof {
                        if og is Some {
                            let g = og.unwrap();
                            assert(name@ == g.components[k].name);
                            lemma_comp_at_unique(
                                text@,
                                q2 as int,
                                config@,
                                g.components[k].config,
                            );
                            assert(q3 == q2 + spec_comp_text(g.components[k].config).len());
                        }
                    }
                    entries.push(ComponentEntry { name, config });
                    proof {
                        if og is Some {
                            let g = og.unwrap();
                            assert(entries.deep_view() =~= g.components.take(k + 1)) by {
                                assert(forall|j: int|
                                    0 <= j < k ==> entries.deep_view()[j]
                                        == g.components.take(k + 1)[j]);
                                assert(entries.deep_view()[k].name == g.components[k].name);
                                assert(entries.deep_view()[k].config == g.components[k].config);
                            }
                        }
                    }
                    match eat_lit(&s, q3, ",") {
                        Some(q4) => {
                            proof {
                                reveal_strlit(",");
                                if og is Some {
                                    let g = og.unwrap();
                                    if g.components.skip(k).len() == 1 {
                                        assert(text@[q3 as int] == ',') by {
                                            assert(text@.subrange(q3 as int, q3 + 1)[0] == (
                                            ","@)[0]);
                                        }
                                        assert(false);
                                    }
                                    assert(entries.deep_view().len() == k + 1);
                                    assert(q4 == q3 + 1);
                                }
                            }
                            if q4 <= p {
                                proof {
                                    if og is Some {
                                        assert(false);
                                    }
                                    lemma_no_canonical(og, text@);
                                }
                                return Err(RegistryParseError::Malformed);
                            }
                            p = q4;
                        },
                        None => {
                            proof {
                                reveal_strlit(",");
                                reveal_strlit("}");
                                if og is Some {
                                    let g = og.unwrap();
                                    if g.components.skip(k).len() > 1 {
                                        assert(at_seq(text@, q3 as int, ","@)) by {
                                            assert(text@.subrange(q3 as int, q3 + 1) =~= ","@);
                                        }
                                        assert(false);
                                    }
                                    lemma_at_split(text@, q3 as int, "}"@, "}"@);
                                    assert(entries.deep_view().len() == k + 1);
                                    assert(entries.deep_view() =~= g.components) by {
                                        assert(g.components.skip(k).len() == 1);
                                        assert(g.components.take(k + 1) =~= g.components);
                                    }
                                }
                            }
                            match eat_lit(&s, q3, "}") {
                                Some(q4) => {
                                    p = q4;
                                    break ;
                                },
                                None => {
                                    proof {
                                        if og is Some {
                                            assert(false);
                                        }
                                        lemma_no_canonical(og, text@);
                                    }
                                    return Err(RegistryParseError::Malformed);
                                },
                            }
                        },
                    }
                }
            },
        }
        match eat_lit(&s, p, "}") {
            Some(q) => {
                if q != s.len() {
                    proof {
                        if og is Some {
                            assert(false);
                        }
                        lemma_no_canonical(og, text@);
                    }
                    return Err(RegistryParseError::Malformed);
                }
            },
            None => {
                proof {
                    if og is Some {
                        assert(false);
                    }
                    lemma_no_canonical(og, text@);
                }
                return Err(RegistryParseError::Malformed);
            },
        }
        if !names_unique(&entries) {
            proof {
                if og is Some {
                    let g = og.unwrap();
                    assert(entries.deep_view() == g.components);
                    assert(false);
                }
                lemma_no_canonical(og, text@);
            }
            return Err(RegistryParseError::Malformed);
        }
        let cfg = DevConfig { sdk_version, components: entries };
        // The text is accepted only if it is exactly what this registry
        // renders to; the round trip holds by this very check.
        let rendered = cfg.to_json_string();
        if !str_eq(rendered.as_str(), text) {
            proof {
                if og is Some {
                    let g = og.unwrap();
                    assert(cfg@.sdk_version == g.sdk_version);
                    assert(cfg@.components == g.components);
                    assert(cfg@ == g);
                    assert(false);
                }
                lemma_no_canonical(og, text@);
            }
            return Err(RegistryParseError::Malformed);
        }
        proof {
            assert(cfg@.wf());
        }
        Ok(cfg)
    }
}

/// Without a canonical registry behind the text, no well-formed registry
/// renders to it.
proof fn lemma_no_canonical(og: Option<DevConfigView>, text: Seq<char>)
    requires
        og == (if exists|g: DevConfigView| #[trigger] g.wf() && spec_registry_text(g) == text {
            Some(choose|g: DevConfigView| #[trigger] g.wf() && spec_registry_text(g) == text)
        } else {
            None::<DevConfigView>
        }),
        og is None,
    ensures
        forall|g: DevConfigView| g.wf() ==> spec_registry_text(g) != text,
{
    assert forall|g: DevConfigView| g.wf() implies spec_registry_text(g) != text by {
        if spec_registry_text(g) == text {
            assert(g.wf() && spec_registry_text(g) == text);
        }
    }
}

/// Skips JSON whitespace.
fn skip_ws(s: &Vec<char>, pos: usize) -> (r: usize)
    requires
        pos <= s@.len(),
    ensures
        pos <= r <= s@.len(),
{
    let n = s.len();
    let mut p = pos;
    while p < n && (s[p] == ' ' || s[p] == '\t' || s[p] == '\n' || s[p] == '\r')
        invariant
            pos <= p <= n,
            n == s@.len(),
        decreases n - p,
    {
        p += 1;
    }
    p
}

/// Consumes one expected character.
fn eat_char(s: &Vec<char>, pos: usize, c: char) -> (r: Option<usize>)
    ensures
        r is Some ==> r.unwrap() == pos + 1 && pos < s@.len(),
{
    if pos < s.len() && s[pos] == c {
        Some(pos + 1)
    } else {
        None
    }
}

/// Reads a component object leniently: whitespace allowed between
/// tokens, the known keys in any order, each at most once, the mode
/// required, every value a string.
fn parse_component_lenient(s: &Vec<char>, pos: usize) -> (r: Option<(ComponentConfig, usize)>)
    requires
        pos <= s@.len(),
    ensures
        r is Some ==> r.unwrap().1 <= s@.len(),
{
    let mut p = skip_ws(s, pos);
    p = match eat_char(s, p, '{') {
        Some(q) => q,
        None => {
            return None;
        },
    };
    let mut mode: Option<ComponentMode> = None;
    let mut c = ComponentConfig {
        mode: ComponentMode::Binary,
        lib: None,
        qml: None,
        plugin: None,
        headers: None,
        bin: None,
        root: None,
    };
    let q0 = skip_ws(s, p);
    match eat_char(s, q0, '}') {
        Some(q) => {
            p = q;
        },
        None => {
            loop
                invariant
                    p <= s@.len(),
                decreases s@.len() - p,
            {
                let p1 = skip_ws(s, p);
                let (key, p2) = match parse_string(s, p1) {
                    Some(v) => v,
                    None => {
                        return None;
                    },
                };
                let p3 = skip_ws(s, p2);
                let p4 = match eat_char(s, p3, ':') {
                    Some(q) => q,
                    None => {
                        return None;
                    },
                };
                let p5 = skip_ws(s, p4);
                let (val, p6) = match parse_string(s, p5) {
                    Some(v) => v,
                    None => {
                        return None;
                    },
                };
                if str_eq(key.as_str(), "mode") {
                    if mode.is_some() {
                        return None;
                    }
                    if str_eq(val.as_str(), "binary") {
                        mode = Some(ComponentMode::Binary);
                    } else if str_eq(val.as_str(), "source") {
                        mode = Some(ComponentMode::Source);
                    } else {
                        return None;
                    }
                } else if str_eq(key.as_str(), "lib") {
                    if c.lib.is_some() {
                        return None;
                    }
                    c.lib = Some(val);
                } else if str_eq(key.as_str(), "qml") {
                    if c.qml.is_some() {
                        return None;
                    }
                    c.qml = Some(val);
                } else if str_eq(key.as_str(), "plugin") {
                    if c.plugin.is_some() {
                        return None;
                    }
                    c.plugin = Some(val);
                } else if str_eq(key.as_str(), "headers") {
                    if c.headers.is_some() {
                        return None;
                    }
                    c.headers = Some(val);
                } else if str_eq(key.as_str(), "bin") {
                    if c.bin.is_some() {
                        return None;
                    }
                    c.bin = Some(val);
                } else if str_eq(key.as_str(), "root") {
                    if c.root.is_some() {
                        return None;
                    }
                    c.root = Some(val);
                } else {
                    return None;
                }
                let p7 = skip_ws(s, p6);
                match eat_char(s, p7, ',') {
                    Some(q) => {
                        if q <= p {
                            return None;
                        }
                        p = q;
                    },
                    None => {
                        match eat_char(s, p7, '}') {
                            Some(q) => {
                                p = q;
                                break ;
                            },
                            None => {
                                return None;
                            },
                        }
                    },
                }
            }
        },
    }
    match mode {
        Some(m) => {
            c.mode = m;
            Some((c, p))
        },
        None => None,
    }
}

/// Reads a registry leniently: whitespace allowed between tokens, the
/// two top-level keys in either order, each at most once and each
/// optional; an absent version is none, absent components are empty.
fn parse_registry_lenient(s: &Vec<char>) -> (r: Option<DevConfig>) {
    let mut p = skip_ws(s, 0);
    p = match eat_char(s, p, '{') {
        Some(q) => q,
        None => {
            return None;
        },
    };
    let mut sdk_version: Option<String> = None;
    let mut seen_version = false;
    let mut seen_components = false;
    let mut entries: Vec<ComponentEntry> = Vec::new();
    let q0 = skip_ws(s, p);
    match eat_char(s, q0, '}') {
        Some(q) => {
            p = q;
        },
        None => {
            loop
                invariant
                    p <= s@.len(),
                decreases s@.len() - p,
            {
                let p1 = skip_ws(s, p);
                let (key, p2) = match parse_string(s, p1) {
                    Some(v) => v,
                    None => {
                        return None;
                    },
                };
                let p3 = skip_ws(s, p2);
                let p4 = match eat_char(s, p3, ':') {
                    Some(q) => q,
                    None => {
                        return None;
                    },
                };
                let p5 = skip_ws(s, p4);
                let after_value: usize;
                if str_eq(key.as_str(), "sdk_version") {
                    if seen_version {
                        return None;
                    }
                    seen_version = true;
                    match eat_lit(s, p5, "null") {
                        Some(q) => {
                            after_value = q;
                        },
                        None => {
                            match parse_string(s, p5) {
                                Some((v, q)) => {
                                    sdk_version = Some(v);
                                    after_value = q;
                                },
                                None => {
                                    return None;
                                },
                            }
                        },
                    }
                } else if str_eq(key.as_str(), "components") {
                    if seen_components {
                        return None;
                    }
                    seen_components = true;
                    let p6 = skip_ws(s, p5);
                    let mut q = match eat_char(s, p6, '{') {
                        Some(x) => x,
                        None => {
                            return None;
                        },
                    };
                    let q1 = skip_ws(s, q);
                    match eat_char(s, q1, '}') {
                        Some(x) => {
                            after_value = x;
                        },
                        None => {
                            let closed: usize;
                            loop
                                invariant
                                    q <= s@.len(),
                                ensures
                                    closed <= s@.len(),
                                decreases s@.len() - q,
                            {
                                let e1 = skip_ws(s, q);
                                let (name, e2) = match parse_string(s, e1) {
                                    Some(v) => v,
                                    None => {
                                        return None;
                                    },
                                };
                                let e3 = skip_ws(s, e2);
                                let e4 = match eat_char(s, e3, ':') {
                                    Some(x) => x,
                                    None => {
                                        return None;
                                    },
                                };
                                let (config, e5) = match parse_component_lenient(s, e4) {
                                    Some(v) => v,
                                    None => {
                                        return None;
                                    },
                                };
                                entries.push(ComponentEntry { name, config });
                                let e6 = skip_ws(s, e5);
                                match eat_char(s, e6, ',') {
                                    Some(e7) => {
                                        if e7 <= q {
                                            return None;
                                        }
                                        q = e7;
                                    },
                                    None => {
                                        match eat_char(s, e6, '}') {
                                            Some(e7) => {
                                                closed = e7;
                                                break ;
                                            },
                                            None => {
                                                return None;
                                            },
                                        }
                                    },
                                }
                            }
                            after_value = closed;
                        },
                    }
                } else {
                    return None;
                }
                let p7 = skip_ws(s, after_value);
                match eat_char(s, p7, ',') {
                    Some(q) => {
                        if q <= p {
                            return None;
                        }
                        p = q;
                    },
                    None => {
                        match eat_char(s, p7, '}') {
                            Some(q) => {
                                p = q;
                                break ;
                            },
                            None => {
                                return None;
                            },
                        }
                    },
                }
            }
        },
    }
    let p_end = skip_ws(s, p);
    if p_end != s.len() {
        return None;
    }
    Some(DevConfig { sdk_version, components: entries })
}

impl DevConfig {
    /// Reads a registry back from its persisted text. Accepted are the
    /// canonical rendering and its whitespace and key-order variants:
    /// objects holding the known keys at most once each, in any order,
    /// with whitespace between tokens; each component carries a `mode` of
    /// `binary` or `source`; `sdk_version` is a string, `null` or absent;
    /// `components` is an object or absent; component names are distinct.
    /// A load of the canonical rendering of a well-formed registry always
    /// succeeds and returns exactly the registry that rendered it.
    pub fn from_json_str(text: &str) -> (r: Result<DevConfig, RegistryParseError>)
        ensures
            match r {
                Ok(cfg) => cfg@.wf() && ((exists|g: DevConfigView|
                    #[trigger] g.wf() && spec_registry_text(g) == text@) ==> spec_registry_text(
                    cfg@,
                ) == text@),
                Err(e) => e == RegistryParseError::Malformed && (forall|g: DevConfigView|
                    g.wf() ==> spec_registry_text(g) != text@),
            },
    {
        match Self::parse_canonical(text) {
            Ok(cfg) => {
                return Ok(cfg);
            },
            Err(_) => {},
        }
        // Not the canonical rendering of any well-formed registry; read
        // the text leniently.
        let s = chars_of(text);
        match parse_registry_lenient(&s) {
            Some(cfg) => {
                if names_unique(&cfg.components) {
                    proof {
                        assert(cfg@.wf());
                    }
                    Ok(cfg)
                } else {
                    Err(RegistryParseError::Malformed)
                }
            },
            None => Err(RegistryParseError::Malformed),
        }
    }
}

} // verus!
