//! Reading structured values out of the bytes of a symbol, with the layout
//! that the uploaded symbol and data type tables describe.
use crate::ads_data::{
    data_type_id_from, option_view, plain_from_slice, plain_value, string_value, text_from_slice,
    type_id_of, AdsDataTypeId,
};
use crate::name_map::lookup;
use crate::symbols::{
    array_element, array_element_of, dims_product, dims_stride, fundamental_type_info, strides_fit, AdsSymbolCollection, AdsSymbolInfo,
    CollectionModel, SymbolInfoModel,
};
use crate::text::{chars_of, string_from_chars};
use crate::variant::{
    items_model, lemma_items_model, lemma_members_model, members_model, Variant, VariantModel,
};
use vstd::prelude::*;
use vstd::string::StringSliceAdditionalSpecFns;
use vstd::utf8::encode_utf8;

verus! {

/// The members of a structure value.
pub type Members = Seq<(Seq<char>, VariantModel)>;

/// The position of the first member of `m` at or after `i` named `k`.
pub open spec fn member_index_from(m: Members, k: Seq<char>, i: int) -> Option<int>
    decreases m.len() - i,
{
    if i < 0 || i >= m.len() {
        None
    } else if m[i].0 == k {
        Some(i)
    } else {
        member_index_from(m, k, i + 1)
    }
}

/// The members `m` with `k` given the value `v`: the value of the member
/// named `k` replaced in its place, or a new member at the end.
pub open spec fn insert_member(m: Members, k: Seq<char>, v: VariantModel) -> Members {
    match member_index_from(m, k, 0) {
        Some(i) => m.update(i, (k, v)),
        None => m.push((k, v)),
    }
}

/// The bytes of the text `s` in UTF-8.
pub open spec fn text_bytes(s: Seq<char>) -> Seq<u8> {
    encode_utf8(s)
}

/// The value read from `bytes` for symbol `s` as data of type `t`: a
/// structure for `BigType`, text for `String`, plain data otherwise.
/// `None` where reading would fail or nest deeper than `fuel` structures;
/// `Some(None)` where there is no value.
pub open spec fn deser_value(
    c: CollectionModel,
    s: SymbolInfoModel,
    b: Seq<u8>,
    t: AdsDataTypeId,
    fuel: nat,
) -> Option<Option<VariantModel>>
    decreases fuel, 0nat, 0nat,
{
    match t {
        AdsDataTypeId::BigType => if fuel == 0 {
            None
        } else {
            deser_struct(c, s, b, (fuel - 1) as nat)
        },
        AdsDataTypeId::String => Some(
            match string_value(b) {
                Ok(text) => Some(VariantModel::Str(text)),
                Err(_) => None,
            },
        ),
        _ => Some(plain_value(b, t)),
    }
}

/// The structure value read from `bytes` for symbol `s`: each field of its
/// fundamental type read from the bytes at the field's offset.
pub open spec fn deser_struct(c: CollectionModel, s: SymbolInfoModel, b: Seq<u8>, fuel: nat) -> Option<
    Option<VariantModel>,
>
    decreases fuel, 0nat, 0nat,
{
    match fundamental_type_info(c, s) {
        None => Some(None),
        Some(dt) => if fuel == 0 {
            None
        } else {
            match deser_fields(c, s, dt.fields, b, Seq::empty(), (fuel - 1) as nat) {
                Some(m) => Some(Some(VariantModel::Object(m))),
                None => None,
            }
        },
    }
}

/// The members read for `fields`, added to `acc`.
pub open spec fn deser_fields(
    c: CollectionModel,
    parent: SymbolInfoModel,
    fields: Seq<SymbolInfoModel>,
    b: Seq<u8>,
    acc: Members,
    fuel: nat,
) -> Option<Members>
    decreases fuel, fields.len() + 2, 0nat,
{
    if fields.len() == 0 {
        Some(acc)
    } else {
        match deser_field(c, parent, fields[0], b, fuel) {
            None => None,
            Some(None) => deser_fields(c, parent, fields.drop_first(), b, acc, fuel),
            Some(Some(v)) => deser_fields(
                c,
                parent,
                fields.drop_first(),
                b,
                insert_member(acc, fields[0].name, v),
                fuel,
            ),
        }
    }
}

/// The bytes `offs..offs + size` lie within `b`.
pub open spec fn slice_fits(b: Seq<u8>, offs: int, size: int) -> bool {
    offs + size <= b.len()
}

/// The value read for field `f` of a structure of symbol `parent`, if the
/// field's type was uploaded: a nested structure, an array, or plain data.
/// A field whose type id is unknown, or whose structure or array cannot be
/// read, is null; plain data that cannot be read is left out.
pub open spec fn deser_field(
    c: CollectionModel,
    parent: SymbolInfoModel,
    f: SymbolInfoModel,
    b: Seq<u8>,
    fuel: nat,
) -> Option<Option<VariantModel>>
    decreases fuel, 1nat, 0nat,
{
    match lookup(c.data_types, f.data_type_name) {
        None => Some(None),
        Some(fi) => {
            let offs = f.offset as int;
            let size = f.size as int;
            let sub = b.subrange(offs, offs + size);
            match type_id_of(f.type_id) {
                None => Some(Some(VariantModel::Null)),
                Some(ft) => if !slice_fits(b, offs, size) {
                    None
                } else if fi.num_fields > 0 || f.is_structure || (f.type_id == 65 && !f.is_array) {
                    match deser_struct(c, f, sub, fuel) {
                        None => None,
                        Some(None) => Some(Some(VariantModel::Null)),
                        Some(Some(v)) => Some(Some(v)),
                    }
                } else if f.is_array {
                    match deser_array(c, f, sub, ft, fuel) {
                        None => None,
                        Some(None) => Some(Some(VariantModel::Null)),
                        Some(Some(v)) => Some(Some(v)),
                    }
                } else {
                    deser_value(c, parent, sub, ft, fuel)
                },
            }
        },
    }
}

/// The nested array made of the elements `flat` from position `start` on,
/// row by row, for the counts of `dims` from dimension `d` on: for the last
/// dimension its elements in order, otherwise one array per index of
/// dimension `d`, each made of the elements of the dimensions after it.
pub open spec fn shape(flat: Seq<VariantModel>, dims: Seq<usize>, d: int, start: int) -> VariantModel
    decreases dims.len() - d,
{
    if d + 1 >= dims.len() {
        VariantModel::Array(flat.subrange(start, start + dims[d]))
    } else {
        let w = dims_product(dims.skip(d + 1));
        VariantModel::Array(
            Seq::new(dims[d] as nat, |i: int| shape(flat, dims, d + 1, start + i * w)),
        )
    }
}

/// The array value read from `bytes` for array symbol `s` with elements of
/// type `t`: as many elements as its dimensions hold together, one after the
/// other, each as wide as the element type named after `OF`, laid out row by
/// row into one array per index of the first dimension, and so on down to
/// the last. No value where the array type or its element type name is
/// unknown, or where it has no dimensions; `None` where reading fails.
pub open spec fn deser_array(
    c: CollectionModel,
    s: SymbolInfoModel,
    b: Seq<u8>,
    t: AdsDataTypeId,
    fuel: nat,
) -> Option<Option<VariantModel>>
    decreases fuel, 0nat, 0nat,
{
    match lookup(c.data_types, s.data_type_name) {
        None => Some(None),
        Some(_) => match array_element(s.data_type_name) {
            None => Some(None),
            Some(e) => {
                let dims = s.array_dimensions;
                if dims.len() == 0 {
                    Some(None)
                } else if !strides_fit(dims) || fuel == 0 {
                    None
                } else {
                    let inc = match lookup(c.data_types, e) {
                        Some(vdt) => vdt.size as int,
                        None => 0,
                    };
                    match deser_elems(
                        c,
                        s,
                        b,
                        t,
                        inc,
                        dims_product(dims) as nat,
                        0,
                        Seq::empty(),
                        (fuel - 1) as nat,
                    ) {
                        None => None,
                        Some((flat, _)) => Some(Some(shape(flat, dims, 0, 0))),
                    }
                }
            },
        },
    }
}

/// `count` more elements of `inc` bytes each, read from byte `offset` on and
/// added to `row`, with the offset after them; an element that cannot be
/// read is null.
pub open spec fn deser_elems(
    c: CollectionModel,
    s: SymbolInfoModel,
    b: Seq<u8>,
    t: AdsDataTypeId,
    inc: int,
    count: nat,
    offset: int,
    row: Seq<VariantModel>,
    fuel: nat,
) -> Option<(Seq<VariantModel>, int)>
    decreases fuel, 0nat, count + 1,
{
    if count == 0 {
        Some((row, offset))
    } else if !slice_fits(b, offset, inc) {
        None
    } else {
        match deser_value(c, s, b.subrange(offset, offset + inc), t, fuel) {
            None => None,
            Some(r) => deser_elems(
                c,
                s,
                b,
                t,
                inc,
                (count - 1) as nat,
                offset + inc,
                row.push(
                    match r {
                        Some(v) => v,
                        None => VariantModel::Null,
                    },
                ),
                fuel,
            ),
        }
    }
}

/// The value read from `bytes` for symbol `s` with type `t`: an array for an
/// array symbol, otherwise a single value.
pub open spec fn deser(c: CollectionModel, s: SymbolInfoModel, b: Seq<u8>, t: AdsDataTypeId, fuel: nat) -> Option<
    Option<VariantModel>,
> {
    if s.is_array {
        deser_array(c, s, b, t, fuel)
    } else {
        deser_value(c, s, b, t, fuel)
    }
}

/// The deepest nesting of structures that reading follows.
pub open spec fn max_depth() -> nat {
    u64::MAX as nat
}

/// The members of a structure value.
pub open spec fn members_view(m: Seq<(String, Variant)>) -> Members {
    Seq::new(m.len(), |i: int| (m[i].0@, m[i].1@))
}

/// The view of a structure value holding `m`.
pub(crate) proof fn lemma_object_view(m: Vec<(String, Variant)>)
    ensures
        Variant::Object(m)@ == VariantModel::Object(members_view(m@)),
{
    lemma_members_model(m@);
    assert(members_model(m@) =~= members_view(m@));
}

/// The view of an array value holding `items`.
proof fn lemma_array_view(items: Vec<Variant>, g: Seq<VariantModel>)
    requires
        items@.len() == g.len(),
        forall|j: int| 0 <= j < g.len() ==> #[trigger] items@[j]@ == g[j],
    ensures
        Variant::Array(items)@ == VariantModel::Array(g),
{
    lemma_items_model(items@);
    assert(items_model(items@) =~= g);
}

/// Gives the member named `k` the value `v`, in its place, or adds it at the end.
pub(crate) fn insert_member_exec(m: &mut Vec<(String, Variant)>, k: String, v: Variant)
    ensures
        members_view(final(m)@) == insert_member(members_view(old(m)@), k@, v@),
{
    let ghost mv = members_view(m@);
    let mut i: usize = 0;
    while i < m.len()
        invariant
            0 <= i <= m@.len(),
            m@ == old(m)@,
            mv == members_view(m@),
            member_index_from(mv, k@, 0) == member_index_from(mv, k@, i as int),
        decreases m@.len() - i,
    {
        assert(mv[i as int].0 == m@[i as int].0@);
        if m[i].0 == k {
            assert(member_index_from(mv, k@, i as int) == Some(i as int));
            let ghost kv = k@;
            let ghost vv = v@;
            m.set(i, (k, v));
            assert(members_view(m@) =~= mv.update(i as int, (kv, vv)));
            return;
        }
        i += 1;
    }
    assert(member_index_from(mv, k@, i as int) is None);
    let ghost kv = k@;
    let ghost vv = v@;
    m.push((k, v));
    assert(members_view(m@) =~= mv.push((kv, vv)));
}

/// The structure value read for `s` from `b`, nesting at most `fuel` deep;
/// `None` where reading fails.
fn struct_core(c: &AdsSymbolCollection, s: &AdsSymbolInfo, b: &[u8], fuel: u64) -> (r: Option<
    Option<Variant>,
>)
    ensures
        match r {
            Some(x) => deser_struct(c@, s@, b@, fuel as nat) == Some(option_view(x)),
            None => deser_struct(c@, s@, b@, fuel as nat) is None,
        },
    decreases fuel, 0nat,
{
    match c.get_fundamental_type_info(s) {
        None => Some(None),
        Some(dt) => {
            if fuel == 0 {
                return None;
            }
            let ghost fields = dt@.fields;
            let mut members: Vec<(String, Variant)> = Vec::new();
            let mut i: usize = 0;
            assert(fields.skip(0) =~= fields);
            assert(members_view(members@) =~= Seq::<(Seq<char>, VariantModel)>::empty());
            while i < dt.fields.len()
                invariant
                    0 <= i <= dt.fields@.len(),
                    fields == dt@.fields,
                    fuel > 0,
                    fundamental_type_info(c@, s@) == Some(dt@),
                    deser_fields(c@, s@, fields, b@, Seq::empty(), (fuel - 1) as nat)
                        == deser_fields(
                        c@,
                        s@,
                        fields.skip(i as int),
                        b@,
                        members_view(members@),
                        (fuel - 1) as nat,
                    ),
                decreases dt.fields@.len() - i,
            {
                assert(fields.skip(i as int)[0] == dt.fields@[i as int]@);
                assert(fields.skip(i as int).drop_first() =~= fields.skip(i + 1));
                match field_core(c, s, &dt.fields[i], b, fuel - 1) {
                    None => {
                        assert(deser_fields(
                            c@,
                            s@,
                            fields.skip(i as int),
                            b@,
                            members_view(members@),
                            (fuel - 1) as nat,
                        ) is None);
                        return None;
                    },
                    Some(None) => {},
                    Some(Some(v)) => {
                        insert_member_exec(&mut members, dt.fields[i].name.clone(), v);
                    },
                }
                i += 1;
            }
            proof {
                lemma_object_view(members);
            }
            Some(Some(Variant::Object(members)))
        },
    }
}

/// The value read for field `f` of a structure of symbol `parent`.
fn field_core(
    c: &AdsSymbolCollection,
    parent: &AdsSymbolInfo,
    f: &AdsSymbolInfo,
    b: &[u8],
    fuel: u64,
) -> (r: Option<Option<Variant>>)
    ensures
        match r {
            Some(x) => deser_field(c@, parent@, f@, b@, fuel as nat) == Some(option_view(x)),
            None => deser_field(c@, parent@, f@, b@, fuel as nat) is None,
        },
    decreases fuel, 1nat,
{
    match c.data_types.get(&f.data_type_name) {
        None => Some(None),
        Some(fi) => match data_type_id_from(f.type_id) {
            None => Some(Some(Variant::Null)),
            Some(ft) => {
                let offs = f.offset as usize;
                let size = f.size as usize;
                let n = b.len();
                if !(offs <= n && size <= n - offs) {
                    return None;
                }
                let sub = &b[offs..offs + size];
                if fi.num_fields > 0 || f.is_structure || (f.type_id == 65 && !f.is_array) {
                    match struct_core(c, f, sub, fuel) {
                        None => None,
                        Some(None) => Some(Some(Variant::Null)),
                        Some(Some(v)) => Some(Some(v)),
                    }
                } else if f.is_array {
                    match array_core(c, f, sub, ft, fuel) {
                        None => None,
                        Some(None) => Some(Some(Variant::Null)),
                        Some(Some(v)) => Some(Some(v)),
                    }
                } else {
                    value_core(c, parent, sub, ft, fuel)
                }
            },
        },
    }
}

/// The value read for `s` from `b` as data of type `t`.
fn value_core(c: &AdsSymbolCollection, s: &AdsSymbolInfo, b: &[u8], t: AdsDataTypeId, fuel: u64) -> (r:
    Option<Option<Variant>>)
    ensures
        match r {
            Some(x) => deser_value(c@, s@, b@, t, fuel as nat) == Some(option_view(x)),
            None => deser_value(c@, s@, b@, t, fuel as nat) is None,
        },
    decreases fuel, 0nat,
{
    match t {
        AdsDataTypeId::BigType => {
            if fuel == 0 {
                None
            } else {
                struct_core(c, s, b, fuel - 1)
            }
        },
        AdsDataTypeId::String => match text_from_slice(b) {
            Ok(text) => Some(Some(Variant::String(text))),
            Err(_) => Some(None),
        },
        _ => Some(plain_from_slice(b, &t)),
    }
}

/// The nested array made of the elements `flat`, with views `g`, as `shape` describes it.
fn shape_exec(
    flat: &Vec<Variant>,
    Ghost(g): Ghost<Seq<VariantModel>>,
    dims: &Vec<usize>,
    d: usize,
    start: usize,
) -> (r: Variant)
    requires
        d < dims@.len(),
        strides_fit(dims@),
        flat@.len() == g.len(),
        forall|j: int| 0 <= j < g.len() ==> #[trigger] flat@[j]@ == g[j],
        start + dims_product(dims@.skip(d as int)) <= g.len(),
    ensures
        r@ == shape(g, dims@, d as int, start as int),
    decreases dims@.len() - d,
{
    let ghost ds = dims@;
    let nd = dims.len();
    let nf = flat.len();
    assert(ds.skip(d as int).drop_first() =~= ds.skip(d + 1));
    let count = dims[d];
    assert(ds.skip(d as int)[0] == count);
    assert(dims_product(ds.skip(d as int)) == count * dims_product(ds.skip(d + 1)));
    if d + 1 >= nd {
        assert(ds.skip(d + 1) =~= Seq::<usize>::empty());
        assert(dims_product(ds.skip(d + 1)) == 1);
        assert(dims_product(ds.skip(d as int)) == count);
        let mut items: Vec<Variant> = Vec::new();
        let mut i: usize = 0;
        while i < count
            invariant
                0 <= i <= count,
                count == ds[d as int],
                start + count <= g.len(),
                ds == dims@,
                nf == g.len(),
                flat@.len() == g.len(),
                forall|j: int| 0 <= j < g.len() ==> #[trigger] flat@[j]@ == g[j],
                items@.len() == i,
                forall|j: int| 0 <= j < i ==> #[trigger] items@[j]@ == g[start + j],
            decreases count - i,
        {
            items.push(flat[start + i].clone());
            i += 1;
        }
        proof {
            lemma_array_view(items, g.subrange(start as int, start + count));
        }
        return Variant::Array(items);
    }
    let w = match dims_stride(dims, d + 1) {
        Some(w) => w,
        None => {
            assert(false);
            0
        },
    };
    assert(dims_product(ds.skip(d as int)) == count * w);
    let mut rows: Vec<Variant> = Vec::new();
    let ghost rv = Seq::new(count as nat, |i: int| shape(g, ds, d + 1, start + i * w));
    let mut i: usize = 0;
    while i < count
        invariant
            0 <= i <= count,
            d + 1 < ds.len(),
            nd == ds.len(),
            ds == dims@,
            strides_fit(ds),
            count == ds[d as int],
            w == dims_product(ds.skip(d + 1)),
            start + count * w <= g.len(),
            nf == g.len(),
            flat@.len() == g.len(),
            forall|j: int| 0 <= j < g.len() ==> #[trigger] flat@[j]@ == g[j],
            rv == Seq::new(count as nat, |i: int| shape(g, ds, d + 1, start + i * w)),
            rows@.len() == i,
            forall|j: int| 0 <= j < i ==> #[trigger] rows@[j]@ == rv[j],
        decreases count - i,
    {
        assert(i * w + w <= count * w) by (nonlinear_arith)
            requires
                i < count,
                w >= 0,
        ;
        assert(i * w >= 0) by (nonlinear_arith)
            requires
                i >= 0,
                w >= 0,
        ;
        let at: usize = start + i * w;
        let v = shape_exec(flat, Ghost(g), dims, d + 1, at);
        rows.push(v);
        i += 1;
    }
    proof {
        lemma_array_view(rows, rv);
        let sv = shape(g, ds, d as int, start as int);
        assert(sv->Array_0 =~= rv);
    }
    Variant::Array(rows)
}

/// The array value read for array symbol `s` from `b` with elements of type `t`.
#[verifier::rlimit(40)]
fn array_core(c: &AdsSymbolCollection, s: &AdsSymbolInfo, b: &[u8], t: AdsDataTypeId, fuel: u64) -> (r:
    Option<Option<Variant>>)
    ensures
        match r {
            Some(x) => deser_array(c@, s@, b@, t, fuel as nat) == Some(option_view(x)),
            None => deser_array(c@, s@, b@, t, fuel as nat) is None,
        },
    decreases fuel, 0nat,
{
    if c.data_types.get(&s.data_type_name).is_none() {
        return Some(None);
    }
    let tn = chars_of(s.data_type_name.as_str());
    let elem_name = match array_element_of(&tn) {
        None => {
            return Some(None);
        },
        Some(e) => string_from_chars(e.as_slice()),
    };
    let ghost dims = s@.array_dimensions;
    if s.array_dimensions.len() == 0 {
        return Some(None);
    }
    assert(dims.skip(0) =~= dims);
    let total = match dims_stride(&s.array_dimensions, 0) {
        Some(n) => n,
        None => {
            return None;
        },
    };
    if fuel == 0 {
        return None;
    }
    let inc: usize = match c.data_types.get(&elem_name) {
        Some(vdt) => vdt.size as usize,
        None => 0,
    };
    let (flat, g, _) = match elems_core(c, s, b, t, inc, total, 0, fuel - 1) {
        None => {
            return None;
        },
        Some(x) => x,
    };
    let v = shape_exec(&flat, g, &s.array_dimensions, 0, 0);
    Some(Some(v))
}

/// `count` elements of `inc` bytes each, read from byte `offset` on, with
/// their views and the offset after them.
fn elems_core(
    c: &AdsSymbolCollection,
    s: &AdsSymbolInfo,
    b: &[u8],
    t: AdsDataTypeId,
    inc: usize,
    count: usize,
    offset: usize,
    fuel: u64,
) -> (r: Option<(Vec<Variant>, Ghost<Seq<VariantModel>>, usize)>)
    requires
        offset <= b@.len(),
    ensures
        match r {
            Some((row, grow, next)) => {
                &&& deser_elems(
                    c@,
                    s@,
                    b@,
                    t,
                    inc as int,
                    count as nat,
                    offset as int,
                    Seq::empty(),
                    fuel as nat,
                ) == Some((grow@, next as int))
                &&& row@.len() == grow@.len()
                &&& grow@.len() == count
                &&& forall|j: int| 0 <= j < grow@.len() ==> #[trigger] row@[j]@ == grow@[j]
                &&& next <= b@.len()
            },
            None => deser_elems(
                c@,
                s@,
                b@,
                t,
                inc as int,
                count as nat,
                offset as int,
                Seq::empty(),
                fuel as nat,
            ) is None,
        },
    decreases fuel, 1nat,
{
    let n = b.len();
    let mut off = offset;
    let mut row: Vec<Variant> = Vec::new();
    let ghost grow: Seq<VariantModel> = Seq::empty();
    let mut k: usize = 0;
    while k < count
        invariant
            0 <= k <= count,
            n == b@.len(),
            off <= n,
            row@.len() == grow.len(),
            grow.len() == k,
            forall|j: int| 0 <= j < grow.len() ==> #[trigger] row@[j]@ == grow[j],
            deser_elems(
                c@,
                s@,
                b@,
                t,
                inc as int,
                count as nat,
                offset as int,
                Seq::empty(),
                fuel as nat,
            ) == deser_elems(
                c@,
                s@,
                b@,
                t,
                inc as int,
                (count - k) as nat,
                off as int,
                grow,
                fuel as nat,
            ),
        decreases count - k,
    {
        if !(off <= n && inc <= n - off) {
            assert(deser_elems(
                c@,
                s@,
                b@,
                t,
                inc as int,
                (count - k) as nat,
                off as int,
                grow,
                fuel as nat,
            ) is None);
            return None;
        }
        match value_core(c, s, &b[off..off + inc], t, fuel) {
            None => {
                assert(deser_elems(
                    c@,
                    s@,
                    b@,
                    t,
                    inc as int,
                    (count - k) as nat,
                    off as int,
                    grow,
                    fuel as nat,
                ) is None);
                return None;
            },
            Some(r) => {
                let v = match r {
                    Some(v) => v,
                    None => Variant::Null,
                };
                proof {
                    grow = grow.push(v@);
                }
                row.push(v);
            },
        }
        off = off + inc;
        k += 1;
    }
    Some((row, Ghost(grow), off))
}

/// The structure value held in `bytes` for `symbol_info`: one member per
/// field of its fundamental type whose own type was uploaded, read at the
/// field's offset, since the controller may pad its structures. A nested
/// structure or array that cannot be read becomes null; `None` when the
/// type of the symbol is not known.
pub fn deserialize_structure(
    symbol_collection: &AdsSymbolCollection,
    symbol_info: &AdsSymbolInfo,
    bytes: &Vec<u8>,
    _type_id: &AdsDataTypeId,
) -> (r: Option<Variant>)
    requires
        deser_struct(symbol_collection@, symbol_info@, bytes@, max_depth()) is Some,
    ensures
        option_view(r) == deser_struct(symbol_collection@, symbol_info@, bytes@, max_depth())->0,
{
    match struct_core(symbol_collection, symbol_info, bytes.as_slice(), u64::MAX) {
        Some(x) => x,
        None => None,
    }
}

/// The array value held in `bytes` for the array symbol `symbol_info`, its
/// elements of type `type_id`; `None` when the array type is not known.
pub fn deserialize_array(
    symbol_collection: &AdsSymbolCollection,
    symbol_info: &AdsSymbolInfo,
    bytes: &Vec<u8>,
    type_id: &AdsDataTypeId,
) -> (r: Option<Variant>)
    requires
        deser_array(symbol_collection@, symbol_info@, bytes@, *type_id, max_depth()) is Some,
    ensures
        option_view(r) == deser_array(
            symbol_collection@,
            symbol_info@,
            bytes@,
            *type_id,
            max_depth(),
        )->0,
{
    match array_core(symbol_collection, symbol_info, bytes.as_slice(), *type_id, u64::MAX) {
        Some(x) => x,
        None => None,
    }
}

/// A value of type `type_id` held in `bytes`: plain data, a string, or a
/// structure for `BigType`.
pub fn deserialize_value(
    symbol_collection: &AdsSymbolCollection,
    symbol_info: &AdsSymbolInfo,
    bytes: &Vec<u8>,
    type_id: &AdsDataTypeId,
) -> (r: Option<Variant>)
    requires
        deser_value(symbol_collection@, symbol_info@, bytes@, *type_id, max_depth()) is Some,
    ensures
        option_view(r) == deser_value(
            symbol_collection@,
            symbol_info@,
            bytes@,
            *type_id,
            max_depth(),
        )->0,
{
    match value_core(symbol_collection, symbol_info, bytes.as_slice(), *type_id, u64::MAX) {
        Some(x) => x,
        None => None,
    }
}

/// The value held in `bytes` for `symbol_info`: an array for an array
/// symbol, otherwise a single value of type `type_id`.
pub fn deserialize(
    symbol_collection: &AdsSymbolCollection,
    symbol_info: &AdsSymbolInfo,
    bytes: &Vec<u8>,
    type_id: &AdsDataTypeId,
) -> (r: Option<Variant>)
    requires
        deser(symbol_collection@, symbol_info@, bytes@, *type_id, max_depth()) is Some,
    ensures
        option_view(r) == deser(symbol_collection@, symbol_info@, bytes@, *type_id, max_depth())->0,
{
    if symbol_info.is_array {
        deserialize_array(symbol_collection, symbol_info, bytes, type_id)
    } else {
        deserialize_value(symbol_collection, symbol_info, bytes, type_id)
    }
}

/// What `deserialize` gives for these arguments, or `None` where it cannot
/// read them: where bytes would be taken from beyond the end of `bytes`,
/// where the element counts of an array do not fit in a `usize`, or where
/// structures would nest deeper than `u64::MAX`.
pub fn try_deserialize(
    symbol_collection: &AdsSymbolCollection,
    symbol_info: &AdsSymbolInfo,
    bytes: &Vec<u8>,
    type_id: &AdsDataTypeId,
) -> (r: Option<Option<Variant>>)
    ensures
        match r {
            Some(x) => deser(symbol_collection@, symbol_info@, bytes@, *type_id, max_depth())
                == Some(option_view(x)),
            None => deser(symbol_collection@, symbol_info@, bytes@, *type_id, max_depth()) is None,
        },
{
    if symbol_info.is_array {
        array_core(symbol_collection, symbol_info, bytes.as_slice(), *type_id, u64::MAX)
    } else {
        value_core(symbol_collection, symbol_info, bytes.as_slice(), *type_id, u64::MAX)
    }
}

} // verus!
