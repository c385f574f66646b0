//! Dynamically typed values read from and written to the controller.
use vstd::prelude::*;

verus! {


/// A value of any type the controller knows. Floating-point values are held
/// by their IEEE-754 bit patterns, which is exactly what the controller sends.
#[derive(Debug, PartialEq)]
pub enum Variant {
    Null,
    Bit(bool),
    Byte(u8),
    SByte(i8),
    Int16(i16),
    UInt16(u16),
    Int32(i32),
    UInt32(u32),
    Int64(i64),
    UInt64(u64),
    /// The bit pattern of a 32-bit float.
    Real32(u32),
    /// The bit pattern of a 64-bit float.
    Real64(u64),
    String(String),
    Array(Vec<Variant>),
    /// Named members in order.
    Object(Vec<(String, Variant)>),
}

/// The mathematical value of a [`Variant`].
pub enum VariantModel {
    Null,
    Bit(bool),
    Byte(u8),
    SByte(i8),
    Int16(i16),
    UInt16(u16),
    Int32(i32),
    UInt32(u32),
    Int64(i64),
    UInt64(u64),
    Real32(u32),
    Real64(u64),
    Str(Seq<char>),
    Array(Seq<VariantModel>),
    Object(Seq<(Seq<char>, VariantModel)>),
}

impl View for Variant {
    type V = VariantModel;

    open spec fn view(&self) -> VariantModel {
        variant_model(*self)
    }
}

/// The mathematical value of a variant.
pub open spec fn variant_model(v: Variant) -> VariantModel
    decreases v,
{
    match v {
        Variant::Null => VariantModel::Null,
        Variant::Bit(b) => VariantModel::Bit(b),
        Variant::Byte(x) => VariantModel::Byte(x),
        Variant::SByte(x) => VariantModel::SByte(x),
        Variant::Int16(x) => VariantModel::Int16(x),
        Variant::UInt16(x) => VariantModel::UInt16(x),
        Variant::Int32(x) => VariantModel::Int32(x),
        Variant::UInt32(x) => VariantModel::UInt32(x),
        Variant::Int64(x) => VariantModel::Int64(x),
        Variant::UInt64(x) => VariantModel::UInt64(x),
        Variant::Real32(x) => VariantModel::Real32(x),
        Variant::Real64(x) => VariantModel::Real64(x),
        Variant::String(s) => VariantModel::Str(s@),
        Variant::Array(items) => VariantModel::Array(items_model(items@)),
        Variant::Object(members) => VariantModel::Object(members_model(members@)),
    }
}

/// The values of a sequence of variants.
pub open spec fn items_model(s: Seq<Variant>) -> Seq<VariantModel>
    decreases s,
{
    if s.len() == 0 {
        Seq::empty()
    } else {
        seq![variant_model(s[0])] + items_model(s.drop_first())
    }
}

/// The names and values of a sequence of members.
pub open spec fn members_model(s: Seq<(String, Variant)>) -> Seq<(Seq<char>, VariantModel)>
    decreases s,
{
    if s.len() == 0 {
        Seq::empty()
    } else {
        seq![(s[0].0@, variant_model(s[0].1))] + members_model(s.drop_first())
    }
}

/// The values of a sequence of variants, one by one.
pub proof fn lemma_items_model(s: Seq<Variant>)
    ensures
        items_model(s).len() == s.len(),
        forall|i: int| 0 <= i < s.len() ==> #[trigger] items_model(s)[i] == s[i]@,
    decreases s.len(),
{
    if s.len() > 0 {
        lemma_items_model(s.drop_first());
        assert forall|i: int| 0 <= i < s.len() implies #[trigger] items_model(s)[i] == s[i]@ by {
            if i > 0 {
                assert(s.drop_first()[i - 1] == s[i]);
            }
        }
    }
}

/// The names and values of a sequence of members, one by one.
pub proof fn lemma_members_model(s: Seq<(String, Variant)>)
    ensures
        members_model(s).len() == s.len(),
        forall|i: int|
            0 <= i < s.len() ==> #[trigger] members_model(s)[i] == (s[i].0@, s[i].1@),
    decreases s.len(),
{
    if s.len() > 0 {
        lemma_members_model(s.drop_first());
        assert forall|i: int| 0 <= i < s.len() implies #[trigger] members_model(s)[i] == (
            s[i].0@,
            s[i].1@,
        ) by {
            if i > 0 {
                assert(s.drop_first()[i - 1] == s[i]);
            }
        }
    }
}

/// A copy of `v`.
fn copy_variant(v: &Variant) -> (r: Variant)
    ensures
        r@ == v@,
    decreases v,
{
    match v {
        Variant::Null => Variant::Null,
        Variant::Bit(b) => Variant::Bit(*b),
        Variant::Byte(x) => Variant::Byte(*x),
        Variant::SByte(x) => Variant::SByte(*x),
        Variant::Int16(x) => Variant::Int16(*x),
        Variant::UInt16(x) => Variant::UInt16(*x),
        Variant::Int32(x) => Variant::Int32(*x),
        Variant::UInt32(x) => Variant::UInt32(*x),
        Variant::Int64(x) => Variant::Int64(*x),
        Variant::UInt64(x) => Variant::UInt64(*x),
        Variant::Real32(x) => Variant::Real32(*x),
        Variant::Real64(x) => Variant::Real64(*x),
        Variant::String(s) => Variant::String(s.clone()),
        Variant::Array(items) => {
            let mut out: Vec<Variant> = Vec::new();
            let mut i: usize = 0;
            while i < items.len()
                invariant
                    0 <= i <= items@.len(),
                    *v == Variant::Array(*items),
                    out@.len() == i,
                    forall|q: int| 0 <= q < i ==> #[trigger] out@[q]@ == items@[q]@,
                decreases items@.len() - i,
            {
                assert(decreases_to!(*v => (*v)->Array_0));
                assert(decreases_to!(*items => items[i as int]));
                out.push(copy_variant(&items[i]));
                i += 1;
            }
            proof {
                lemma_items_model(out@);
                lemma_items_model(items@);
                assert(items_model(out@) =~= items_model(items@));
            }
            Variant::Array(out)
        },
        Variant::Object(ms) => {
            let mut out: Vec<(String, Variant)> = Vec::new();
            let mut i: usize = 0;
            while i < ms.len()
                invariant
                    0 <= i <= ms@.len(),
                    *v == Variant::Object(*ms),
                    out@.len() == i,
                    forall|q: int|
                        0 <= q < i ==> #[trigger] out@[q].0@ == ms@[q].0@ && out@[q].1@
                            == ms@[q].1@,
                decreases ms@.len() - i,
            {
                assert(decreases_to!(*v => (*v)->Object_0));
                assert(decreases_to!(*ms => ms[i as int]));
                assert(decreases_to!(ms[i as int] => ms[i as int].1));
                let x = copy_variant(&ms[i].1);
                out.push((ms[i].0.clone(), x));
                i += 1;
            }
            proof {
                lemma_members_model(out@);
                lemma_members_model(ms@);
                assert(members_model(out@) =~= members_model(ms@));
            }
            Variant::Object(out)
        },
    }
}

impl Clone for Variant {
    fn clone(&self) -> (r: Self)
        ensures
            r@ == self@,
    {
        copy_variant(self)
    }
}

} // verus!
