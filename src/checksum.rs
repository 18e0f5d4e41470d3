use vstd::prelude::*;
use vstd::utf8::encode_utf8;
use crate::models::{
    opt_text, steps_view, entries_view, layers_view, Step, StepModel, Binding, BindingModel,
    BindingEntry, EntryModel, LayerState, LayerModel, DeviceState, StateModel,
};

verus! {

/// The JSON string literal, quotes and escapes included, that serde_json writes for `s`.
pub uninterp spec fn json_quoted(s: Seq<char>) -> Seq<char>;

/// Relies on serde_json::to_string on a `str`: the JSON string literal of `s`.
/// Serialising a string cannot fail, so the error arm is never taken.
#[verifier::external_body]
fn json_string(s: &str) -> (r: String)
    ensures
        r@ == json_quoted(s@),
{
    serde_json::to_string(s).unwrap_or_default()
}

/// One step of the checksum fold: `acc * 31 + b`, modulo 2^32.
pub open spec fn fold_step(acc: u32, b: u8) -> u32 {
    ((acc as int * 31 + b as int) % 0x1_0000_0000) as u32
}

/// The fold `acc = acc * 31 + byte` over `bytes`, with 32-bit wraparound.
pub open spec fn fold_hash(acc: u32, bytes: Seq<u8>) -> u32
    decreases bytes.len(),
{
    if bytes.len() == 0 {
        acc
    } else {
        fold_hash(fold_step(acc, bytes[0]), bytes.drop_first())
    }
}

/// The checksum of a byte sequence: the fold started at 0.
pub open spec fn checksum_of_bytes(bytes: Seq<u8>) -> u32 {
    fold_hash(0, bytes)
}

/// Decimal digits of a natural number, as ASCII bytes.
pub open spec fn nat_text(n: nat) -> Seq<u8>
    decreases n,
{
    if n < 10 {
        seq![(48 + n) as u8]
    } else {
        nat_text(n / 10) + seq![(48 + n % 10) as u8]
    }
}

/// Decimal text of an integer, with a leading `-` when negative.
pub open spec fn int_text(n: int) -> Seq<u8> {
    if n < 0 {
        seq![45u8] + nat_text((-n) as nat)
    } else {
        nat_text(n as nat)
    }
}

pub open spec fn opt_int_text(o: Option<int>) -> Seq<u8> {
    match o {
        Some(n) => int_text(n),
        None => encode_utf8("null"@),
    }
}

pub open spec fn opt_i32(o: Option<i32>) -> Option<int> {
    match o {
        Some(n) => Some(n as int),
        None => None,
    }
}

pub open spec fn opt_u32(o: Option<u32>) -> Option<int> {
    match o {
        Some(n) => Some(n as int),
        None => None,
    }
}

/// A string as a quoted JSON literal, in UTF-8.
pub open spec fn quoted_text(s: Seq<char>) -> Seq<u8> {
    encode_utf8(json_quoted(s))
}

pub open spec fn opt_quoted_text(o: Option<Seq<char>>) -> Seq<u8> {
    match o {
        Some(s) => quoted_text(s),
        None => encode_utf8("null"@),
    }
}

/// A metadata object, written as the JSON text it holds.
pub open spec fn meta_text(o: Option<Seq<char>>) -> Seq<u8> {
    match o {
        Some(s) => encode_utf8(s),
        None => encode_utf8("null"@),
    }
}

pub open spec fn step_head_text(s: StepModel) -> Seq<u8> {
    encode_utf8("{\"id\":"@) + int_text(s.id as int) + encode_utf8(",\"name\":"@) + quoted_text(
        s.name,
    ) + encode_utf8(",\"op\":"@) + quoted_text(s.op)
}

pub open spec fn step_text(s: StepModel) -> Seq<u8> {
    step_head_text(s) + encode_utf8(",\"arg\":"@) + opt_quoted_text(s.arg) + encode_utf8(
        ",\"class\":"@,
    ) + opt_int_text(opt_i32(s.class)) + encode_utf8("}"@)
}

pub open spec fn steps_join(s: Seq<StepModel>) -> Seq<u8>
    decreases s.len(),
{
    if s.len() == 0 {
        Seq::empty()
    } else if s.len() == 1 {
        step_text(s[0])
    } else {
        steps_join(s.drop_last()) + encode_utf8(","@) + step_text(s.last())
    }
}

pub open spec fn binding_text(b: BindingModel) -> Seq<u8> {
    match b {
        BindingModel::Unbound => encode_utf8("{\"type\":\"none\"}"@),
        BindingModel::ScriptRef { script_id, meta } => encode_utf8(
            "{\"type\":\"scriptRef\",\"scriptId\":"@,
        ) + quoted_text(script_id) + encode_utf8(",\"meta\":"@) + meta_text(meta) + encode_utf8(
            "}"@,
        ),
        BindingModel::SimpleAction { action, arg, meta } => encode_utf8(
            "{\"type\":\"simpleAction\",\"action\":"@,
        ) + quoted_text(action) + encode_utf8(",\"arg\":"@) + opt_quoted_text(arg) + encode_utf8(
            ",\"meta\":"@,
        ) + meta_text(meta) + encode_utf8("}"@),
        BindingModel::InlineSequence { steps, meta } => encode_utf8(
            "{\"type\":\"inlineSequence\",\"steps\":["@,
        ) + steps_join(steps) + encode_utf8("],\"meta\":"@) + meta_text(meta) + encode_utf8(
            "}"@,
        ),
        BindingModel::Program { path, meta } => encode_utf8("{\"type\":\"program\",\"path\":"@)
            + quoted_text(path) + encode_utf8(",\"meta\":"@) + meta_text(meta) + encode_utf8(
            "}"@,
        ),
    }
}

pub open spec fn entry_text(e: EntryModel) -> Seq<u8> {
    encode_utf8("{\"targetId\":"@) + quoted_text(e.target_id) + encode_utf8(",\"layerId\":"@)
        + opt_int_text(opt_i32(e.layer_id)) + encode_utf8(",\"binding\":"@) + binding_text(
        e.binding,
    ) + encode_utf8("}"@)
}

pub open spec fn entries_join(s: Seq<EntryModel>) -> Seq<u8>
    decreases s.len(),
{
    if s.len() == 0 {
        Seq::empty()
    } else if s.len() == 1 {
        entry_text(s[0])
    } else {
        entries_join(s.drop_last()) + encode_utf8(","@) + entry_text(s.last())
    }
}

pub open spec fn layer_text(l: LayerModel) -> Seq<u8> {
    encode_utf8("{\"id\":"@) + int_text(l.id as int) + encode_utf8(",\"bindings\":["@)
        + entries_join(l.bindings) + encode_utf8("]}"@)
}

pub open spec fn layers_join(s: Seq<LayerModel>) -> Seq<u8>
    decreases s.len(),
{
    if s.len() == 0 {
        Seq::empty()
    } else if s.len() == 1 {
        layer_text(s[0])
    } else {
        layers_join(s.drop_last()) + encode_utf8(","@) + layer_text(s.last())
    }
}

/// The canonical text of a snapshot: its compact JSON form, in UTF-8.
pub open spec fn state_text(m: StateModel) -> Seq<u8> {
    encode_utf8("{\"profileId\":"@) + quoted_text(m.profile_id) + encode_utf8(",\"layers\":["@)
        + layers_join(m.layers) + encode_utf8("],\"revision\":"@) + opt_int_text(
        opt_i32(m.revision),
    ) + encode_utf8(",\"checksum\":"@) + opt_int_text(opt_u32(m.checksum)) + encode_utf8("}"@)
}

/// The checksum of a snapshot: the fold over its canonical text.
pub open spec fn state_checksum(m: StateModel) -> u32 {
    checksum_of_bytes(state_text(m))
}

fn push_bytes(out: &mut Vec<u8>, b: &[u8])
    ensures
        final(out)@ == old(out)@ + b@,
{
    let mut i: usize = 0;
    while i < b.len()
        invariant
            i <= b@.len(),
            out@ == old(out)@ + b@.take(i as int),
        decreases b@.len() - i,
    {
        out.push(b[i]);
        i = i + 1;
        assert(b@.take(i as int) =~= b@.take(i - 1) + seq![b@[i - 1]]);
    }
    assert(b@.take(b@.len() as int) =~= b@);
}

fn push_text(out: &mut Vec<u8>, s: &str)
    ensures
        final(out)@ == old(out)@ + encode_utf8(s@),
{
    push_bytes(out, s.as_bytes());
}

fn push_quoted(out: &mut Vec<u8>, s: &str)
    ensures
        final(out)@ == old(out)@ + quoted_text(s@),
{
    let q = json_string(s);
    push_text(out, q.as_str());
}

fn push_nat(out: &mut Vec<u8>, n: u64)
    ensures
        final(out)@ == old(out)@ + nat_text(n as nat),
    decreases n,
{
    if n >= 10 {
        push_nat(out, n / 10);
    }
    let d: u8 = (n % 10) as u8;
    out.push(48 + d);
    assert(final(out)@ =~= old(out)@ + nat_text(n as nat));
}

fn push_int(out: &mut Vec<u8>, n: i64)
    requires
        n > i64::MIN,
    ensures
        final(out)@ == old(out)@ + int_text(n as int),
{
    if n < 0 {
        out.push(45u8);
        push_nat(out, (-n) as u64);
        assert(final(out)@ =~= old(out)@ + int_text(n as int));
    } else {
        push_nat(out, n as u64);
    }
}

fn push_opt_int(out: &mut Vec<u8>, o: Option<i64>)
    requires
        o matches Some(n) ==> n > i64::MIN,
    ensures
        final(out)@ == old(out)@ + opt_int_text(
            match o {
                Some(n) => Some(n as int),
                None => None,
            },
        ),
{
    match o {
        Some(n) => push_int(out, n),
        None => push_text(out, "null"),
    }
}

fn widen_i32(o: Option<i32>) -> (r: Option<i64>)
    ensures
        r == (match o {
            Some(n) => Some(n as i64),
            None => None::<i64>,
        }),
{
    match o {
        Some(n) => Some(n as i64),
        None => None,
    }
}

fn widen_u32(o: Option<u32>) -> (r: Option<i64>)
    ensures
        r == (match o {
            Some(n) => Some(n as i64),
            None => None::<i64>,
        }),
{
    match o {
        Some(n) => Some(n as i64),
        None => None,
    }
}

fn push_opt_quoted(out: &mut Vec<u8>, o: &Option<String>)
    ensures
        final(out)@ == old(out)@ + opt_quoted_text(opt_text(*o)),
{
    match o {
        Some(s) => push_quoted(out, s.as_str()),
        None => push_text(out, "null"),
    }
}

fn push_meta(out: &mut Vec<u8>, o: &Option<String>)
    ensures
        final(out)@ == old(out)@ + meta_text(opt_text(*o)),
{
    match o {
        Some(s) => push_text(out, s.as_str()),
        None => push_text(out, "null"),
    }
}

fn push_step_head(out: &mut Vec<u8>, s: &Step)
    ensures
        final(out)@ == old(out)@ + step_head_text(s@),
{
    push_text(out, "{\"id\":");
    push_int(out, s.id as i64);
    push_text(out, ",\"name\":");
    push_quoted(out, s.name.as_str());
    push_text(out, ",\"op\":");
    push_quoted(out, s.op.as_str());
    assert(final(out)@ =~= old(out)@ + step_head_text(s@));
}

fn push_step(out: &mut Vec<u8>, s: &Step)
    ensures
        final(out)@ == old(out)@ + step_text(s@),
{
    push_step_head(out, s);
    push_text(out, ",\"arg\":");
    push_opt_quoted(out, &s.arg);
    push_text(out, ",\"class\":");
    push_opt_int(out, widen_i32(s.class));
    push_text(out, "}");
    assert(final(out)@ =~= old(out)@ + step_text(s@));
}

fn push_steps(out: &mut Vec<u8>, v: &Vec<Step>)
    ensures
        final(out)@ == old(out)@ + steps_join(steps_view(v@)),
{
    let ghost start = out@;
    let ghost m = steps_view(v@);
    let mut i: usize = 0;
    while i < v.len()
        invariant
            i <= v@.len(),
            m == steps_view(v@),
            out@ == start + steps_join(m.take(i as int)),
        decreases v@.len() - i,
    {
        if i > 0 {
            push_text(out, ",");
        }
        push_step(out, &v[i]);
        proof {
            let t = m.take(i + 1);
            assert(t.drop_last() =~= m.take(i as int));
            assert(t.last() == v@[i as int]@);
            if i == 0 {
                assert(m.take(0) =~= Seq::<StepModel>::empty());
            }
        }
        i = i + 1;
        assert(out@ =~= start + steps_join(m.take(i as int)));
    }
    assert(m.take(v@.len() as int) =~= m);
}

#[verifier::rlimit(60)]
fn push_binding(out: &mut Vec<u8>, b: &Binding)
    ensures
        final(out)@ == old(out)@ + binding_text(b@),
{
    match b {
        Binding::Unbound => {
            push_text(out, "{\"type\":\"none\"}");
        },
        Binding::ScriptRef { script_id, meta } => {
            push_text(out, "{\"type\":\"scriptRef\",\"scriptId\":");
            push_quoted(out, script_id.as_str());
            push_text(out, ",\"meta\":");
            push_meta(out, meta);
            push_text(out, "}");
        },
        Binding::SimpleAction { action, arg, meta } => {
            push_text(out, "{\"type\":\"simpleAction\",\"action\":");
            push_quoted(out, action.as_str());
            push_text(out, ",\"arg\":");
            push_opt_quoted(out, arg);
            push_text(out, ",\"meta\":");
            push_meta(out, meta);
            push_text(out, "}");
        },
        Binding::InlineSequence { steps, meta } => {
            push_text(out, "{\"type\":\"inlineSequence\",\"steps\":[");
            push_steps(out, steps);
            push_text(out, "],\"meta\":");
            push_meta(out, meta);
            push_text(out, "}");
        },
        Binding::Program { path, meta } => {
            push_text(out, "{\"type\":\"program\",\"path\":");
            push_quoted(out, path.as_str());
            push_text(out, ",\"meta\":");
            push_meta(out, meta);
            push_text(out, "}");
        },
    }
    assert(final(out)@ =~= old(out)@ + binding_text(b@));
}

fn push_entry(out: &mut Vec<u8>, e: &BindingEntry)
    ensures
        final(out)@ == old(out)@ + entry_text(e@),
{
    push_text(out, "{\"targetId\":");
    push_quoted(out, e.target_id.as_str());
    push_text(out, ",\"layerId\":");
    push_opt_int(out, widen_i32(e.layer_id));
    push_text(out, ",\"binding\":");
    push_binding(out, &e.binding);
    push_text(out, "}");
    assert(final(out)@ =~= old(out)@ + entry_text(e@));
}

fn push_entries(out: &mut Vec<u8>, v: &Vec<BindingEntry>)
    ensures
        final(out)@ == old(out)@ + entries_join(entries_view(v@)),
{
    let ghost start = out@;
    let ghost m = entries_view(v@);
    let mut i: usize = 0;
    while i < v.len()
        invariant
            i <= v@.len(),
            m == entries_view(v@),
            out@ == start + entries_join(m.take(i as int)),
        decreases v@.len() - i,
    {
        if i > 0 {
            push_text(out, ",");
        }
        push_entry(out, &v[i]);
        proof {
            let t = m.take(i + 1);
            assert(t.drop_last() =~= m.take(i as int));
            assert(t.last() == v@[i as int]@);
            if i == 0 {
                assert(m.take(0) =~= Seq::<EntryModel>::empty());
            }
        }
        i = i + 1;
        assert(out@ =~= start + entries_join(m.take(i as int)));
    }
    assert(m.take(v@.len() as int) =~= m);
}

fn push_layer(out: &mut Vec<u8>, l: &LayerState)
    ensures
        final(out)@ == old(out)@ + layer_text(l@),
{
    push_text(out, "{\"id\":");
    push_int(out, l.id as i64);
    push_text(out, ",\"bindings\":[");
    push_entries(out, &l.bindings);
    push_text(out, "]}");
    assert(final(out)@ =~= old(out)@ + layer_text(l@));
}

fn push_layers(out: &mut Vec<u8>, v: &Vec<LayerState>)
    ensures
        final(out)@ == old(out)@ + layers_join(layers_view(v@)),
{
    let ghost start = out@;
    let ghost m = layers_view(v@);
    let mut i: usize = 0;
    while i < v.len()
        invariant
            i <= v@.len(),
            m == layers_view(v@),
            out@ == start + layers_join(m.take(i as int)),
        decreases v@.len() - i,
    {
        if i > 0 {
            push_text(out, ",");
        }
        push_layer(out, &v[i]);
        proof {
            let t = m.take(i + 1);
            assert(t.drop_last() =~= m.take(i as int));
            assert(t.last() == v@[i as int]@);
            if i == 0 {
                assert(m.take(0) =~= Seq::<LayerModel>::empty());
            }
        }
        i = i + 1;
        assert(out@ =~= start + layers_join(m.take(i as int)));
    }
    assert(m.take(v@.len() as int) =~= m);
}

/// The canonical text of a snapshot, as bytes.
pub fn canonical_text(ds: &DeviceState) -> (r: Vec<u8>)
    ensures
        r@ == state_text(ds@),
{
    let mut out: Vec<u8> = Vec::new();
    push_text(&mut out, "{\"profileId\":");
    push_quoted(&mut out, ds.profile_id.as_str());
    push_text(&mut out, ",\"layers\":[");
    push_layers(&mut out, &ds.layers);
    push_text(&mut out, "],\"revision\":");
    push_opt_int(&mut out, widen_i32(ds.revision));
    push_text(&mut out, ",\"checksum\":");
    push_opt_int(&mut out, widen_u32(ds.checksum));
    push_text(&mut out, "}");
    assert(out@ =~= state_text(ds@));
    out
}

/// The fold `acc = acc * 31 + byte` over `bytes`, from 0, with 32-bit wraparound.
pub fn checksum_bytes(bytes: &[u8]) -> (r: u32)
    ensures
        r == checksum_of_bytes(bytes@),
{
    let mut acc: u32 = 0;
    let mut i: usize = 0;
    assert(bytes@.subrange(0, bytes@.len() as int) =~= bytes@);
    while i < bytes.len()
        invariant
            i <= bytes@.len(),
            fold_hash(acc, bytes@.subrange(i as int, bytes@.len() as int)) == checksum_of_bytes(
                bytes@,
            ),
        decreases bytes@.len() - i,
    {
        let ghost rest = bytes@.subrange(i as int, bytes@.len() as int);
        assert(rest.drop_first() =~= bytes@.subrange(i + 1, bytes@.len() as int));
        let next: u64 = ((acc as u64) * 31 + bytes[i] as u64) % 0x1_0000_0000;
        acc = next as u32;
        i = i + 1;
    }
    acc
}

/// The integrity checksum of a snapshot: the fold over its canonical text.
pub fn compute_checksum(ds: &DeviceState) -> (r: u32)
    ensures
        r == state_checksum(ds@),
{
    let text = canonical_text(ds);
    checksum_bytes(text.as_slice())
}

/// Recomputing the checksum of an unchanged snapshot gives the same value.
pub proof fn lemma_checksum_stable(a: DeviceState, b: DeviceState)
    requires
        a@ == b@,
    ensures
        state_checksum(a@) == state_checksum(b@),
{
}

} // verus!
