//! The symbols and data types uploaded from the controller, and the lookups
//! over them that reading and writing values need.
use crate::error::AdsError;
use crate::name_map::{lookup, sorted_by_name, NameMap, ViewCopy};
use crate::text::{
    chars_of, find, find_char, find_chars, lemma_find_from, split_chars, split_on,
    string_from_chars,
};
use vstd::prelude::*;

verus! {

/// Information about a symbol of the controller, or about a field of a
/// structured data type.
#[derive(Debug, PartialEq)]
pub struct AdsSymbolInfo {
    /// Fully-qualified name of the symbol.
    pub name: String,
    /// Index group of the symbol: input, output, etc.
    pub group_index: u32,
    /// Index offset of the symbol.
    pub index_offset: u32,
    /// For a field of a structure, its offset in the structure in bytes, as
    /// uploaded from the controller, which may pad structures.
    pub offset: u32,
    /// Size of the symbol, in bytes. 0 = bit.
    pub size: u32,
    /// ADS data type id of the symbol.
    pub type_id: u32,
    /// Name of the data type of the symbol.
    pub data_type_name: String,
    /// Comment, if there is one.
    pub comment: String,
    /// The symbol is a structure.
    pub is_structure: bool,
    /// The symbol is an array.
    pub is_array: bool,
    /// Number of elements in each dimension, if the symbol is an array.
    pub array_dimensions: Vec<usize>,
}

/// The value of an [`AdsSymbolInfo`].
pub struct SymbolInfoModel {
    pub name: Seq<char>,
    pub group_index: u32,
    pub index_offset: u32,
    pub offset: u32,
    pub size: u32,
    pub type_id: u32,
    pub data_type_name: Seq<char>,
    pub comment: Seq<char>,
    pub is_structure: bool,
    pub is_array: bool,
    pub array_dimensions: Seq<usize>,
}

impl View for AdsSymbolInfo {
    type V = SymbolInfoModel;

    open spec fn view(&self) -> SymbolInfoModel {
        SymbolInfoModel {
            name: self.name@,
            group_index: self.group_index,
            index_offset: self.index_offset,
            offset: self.offset,
            size: self.size,
            type_id: self.type_id,
            data_type_name: self.data_type_name@,
            comment: self.comment@,
            is_structure: self.is_structure,
            is_array: self.is_array,
            array_dimensions: self.array_dimensions@,
        }
    }
}

impl Clone for AdsSymbolInfo {
    fn clone(&self) -> (r: Self)
        ensures
            r@ == self@,
    {
        let dims = self.array_dimensions.clone();
        assert(dims@ =~= self.array_dimensions@);
        AdsSymbolInfo {
            name: self.name.clone(),
            group_index: self.group_index,
            index_offset: self.index_offset,
            offset: self.offset,
            size: self.size,
            type_id: self.type_id,
            data_type_name: self.data_type_name.clone(),
            comment: self.comment.clone(),
            is_structure: self.is_structure,
            is_array: self.is_array,
            array_dimensions: dims,
        }
    }
}

/// The symbol information with empty texts, zero numbers and no dimensions.
pub open spec fn empty_symbol_info() -> SymbolInfoModel {
    SymbolInfoModel {
        name: Seq::empty(),
        group_index: 0,
        index_offset: 0,
        offset: 0,
        size: 0,
        type_id: 0,
        data_type_name: Seq::empty(),
        comment: Seq::empty(),
        is_structure: false,
        is_array: false,
        array_dimensions: Seq::empty(),
    }
}

impl AdsSymbolInfo {
    /// Symbol information with empty texts, zero numbers and no dimensions.
    pub fn new() -> (r: AdsSymbolInfo)
        ensures
            r@ == empty_symbol_info(),
    {
        let r = AdsSymbolInfo {
            group_index: 0,
            index_offset: 0,
            offset: 0,
            size: 0,
            name: String::new(),
            type_id: 0,
            data_type_name: String::new(),
            comment: String::new(),
            is_structure: false,
            is_array: false,
            array_dimensions: Vec::new(),
        };
        assert(r@.array_dimensions =~= Seq::<usize>::empty());
        r
    }
}

/// Information about a data type uploaded from the controller.
#[derive(Debug, PartialEq)]
pub struct AdsDataTypeInfo {
    pub name: String,
    pub comment: String,
    pub entry_length: u32,
    pub version: u32,
    pub size: u32,
    pub offset: u32,
    pub data_type: u32,
    pub flags: u32,
    pub num_array_dimensions: u16,
    pub num_fields: u16,
    pub array_data_size: usize,
    pub array_dimensions: Vec<usize>,
    /// Fields of this data type if it is a structure.
    pub fields: Vec<AdsSymbolInfo>,
}

/// The value of an [`AdsDataTypeInfo`].
pub struct DataTypeInfoModel {
    pub name: Seq<char>,
    pub comment: Seq<char>,
    pub entry_length: u32,
    pub version: u32,
    pub size: u32,
    pub offset: u32,
    pub data_type: u32,
    pub flags: u32,
    pub num_array_dimensions: u16,
    pub num_fields: u16,
    pub array_data_size: usize,
    pub array_dimensions: Seq<usize>,
    pub fields: Seq<SymbolInfoModel>,
}

impl View for AdsDataTypeInfo {
    type V = DataTypeInfoModel;

    open spec fn view(&self) -> DataTypeInfoModel {
        DataTypeInfoModel {
            name: self.name@,
            comment: self.comment@,
            entry_length: self.entry_length,
            version: self.version,
            size: self.size,
            offset: self.offset,
            data_type: self.data_type,
            flags: self.flags,
            num_array_dimensions: self.num_array_dimensions,
            num_fields: self.num_fields,
            array_data_size: self.array_data_size,
            array_dimensions: self.array_dimensions@,
            fields: Seq::new(self.fields@.len(), |i: int| self.fields@[i]@),
        }
    }
}

impl Clone for AdsDataTypeInfo {
    fn clone(&self) -> (r: Self)
        ensures
            r@ == self@,
    {
        let dims = self.array_dimensions.clone();
        assert(dims@ =~= self.array_dimensions@);
        let mut fields: Vec<AdsSymbolInfo> = Vec::new();
        let mut i: usize = 0;
        while i < self.fields.len()
            invariant
                0 <= i <= self.fields@.len(),
                fields@.len() == i,
                forall|j: int| 0 <= j < i ==> #[trigger] fields@[j]@ == self.fields@[j]@,
            decreases self.fields@.len() - i,
        {
            fields.push(self.fields[i].clone());
            i += 1;
        }
        let r = AdsDataTypeInfo {
            name: self.name.clone(),
            comment: self.comment.clone(),
            entry_length: self.entry_length,
            version: self.version,
            size: self.size,
            offset: self.offset,
            data_type: self.data_type,
            flags: self.flags,
            num_array_dimensions: self.num_array_dimensions,
            num_fields: self.num_fields,
            array_data_size: self.array_data_size,
            array_dimensions: dims,
            fields,
        };
        assert(r@.fields =~= self@.fields);
        r
    }
}

/// The data type information with empty texts, zero numbers, no dimensions
/// and no fields.
pub open spec fn empty_data_type_info() -> DataTypeInfoModel {
    DataTypeInfoModel {
        name: Seq::empty(),
        comment: Seq::empty(),
        entry_length: 0,
        version: 0,
        size: 0,
        offset: 0,
        data_type: 0,
        flags: 0,
        num_array_dimensions: 0,
        num_fields: 0,
        array_data_size: 0,
        array_dimensions: Seq::empty(),
        fields: Seq::empty(),
    }
}

impl AdsDataTypeInfo {
    /// A placeholder with empty texts, zero numbers, no dimensions and no fields.
    pub fn new() -> (r: Self)
        ensures
            r@ == empty_data_type_info(),
    {
        let r = AdsDataTypeInfo {
            name: String::new(),
            comment: String::new(),
            entry_length: 0,
            version: 0,
            size: 0,
            offset: 0,
            data_type: 0,
            flags: 0,
            num_array_dimensions: 0,
            num_fields: 0,
            array_data_size: 0,
            array_dimensions: Vec::new(),
            fields: Vec::new(),
        };
        assert(r@.array_dimensions =~= Seq::<usize>::empty());
        assert(r@.fields =~= Seq::<SymbolInfoModel>::empty());
        r
    }

    /// The number of child items of this data type: its fields if it is a
    /// structure, otherwise the elements of all its array dimensions, their
    /// counts multiplied together; none for plain data.
    pub fn sub_item_count(&self) -> (r: usize)
        requires
            self.num_fields == 0 && self.num_array_dimensions > 0 ==> dims_product(
                self.array_dimensions@,
            ) <= usize::MAX,
        ensures
            r == (if self.num_fields > 0 {
                self.num_fields as int
            } else if self.num_array_dimensions > 0 {
                dims_product(self.array_dimensions@)
            } else {
                0
            }),
    {
        if self.num_fields > 0 {
            self.num_fields as usize
        } else if self.num_array_dimensions > 0 {
            let ghost d = self.array_dimensions@;
            let mut i: usize = 0;
            while i < self.array_dimensions.len()
                invariant
                    0 <= i <= d.len(),
                    d == self.array_dimensions@,
                    !(self.num_fields > 0),
                    self.num_array_dimensions > 0,
                    forall|j: int| 0 <= j < i ==> #[trigger] d[j] > 0,
                decreases d.len() - i,
            {
                if self.array_dimensions[i] == 0 {
                    proof {
                        lemma_dims_product_zero(d, i as int);
                    }
                    return 0;
                }
                i += 1;
            }
            proof {
                lemma_suffix_products_bounded(d);
            }
            assert(d.skip(0) =~= d);
            assert(dims_product(d) <= usize::MAX);
            assert(forall|j: int|
                0 <= j <= d.len() ==> #[trigger] dims_product(d.skip(j)) <= usize::MAX);
            match dims_stride(&self.array_dimensions, 0) {
                Some(n) => n,
                None => {
                    assert(false);
                    0
                },
            }
        } else {
            0
        }
    }
}

/// The number of elements of an array with the counts `d` per dimension.
pub open spec fn dims_product(d: Seq<usize>) -> int
    decreases d.len(),
{
    if d.len() == 0 {
        1
    } else {
        d[0] * dims_product(d.drop_first())
    }
}

/// Counts with a zero among them have no elements.
pub proof fn lemma_dims_product_zero(d: Seq<usize>, k: int)
    requires
        0 <= k < d.len(),
        d[k] == 0,
    ensures
        dims_product(d) == 0,
    decreases d.len(),
{
    if k > 0 {
        assert(d.drop_first()[k - 1] == 0);
        lemma_dims_product_zero(d.drop_first(), k - 1);
    }
}

/// Where no count is zero, the product of the counts from any dimension on
/// is at least one and at most the product of all of them.
pub proof fn lemma_suffix_products_bounded(d: Seq<usize>)
    requires
        forall|j: int| 0 <= j < d.len() ==> #[trigger] d[j] > 0,
    ensures
        dims_product(d) >= 1,
        forall|j: int|
            0 <= j <= d.len() ==> 1 <= #[trigger] dims_product(d.skip(j)) <= dims_product(d),
    decreases d.len(),
{
    if d.len() == 0 {
        assert forall|j: int| 0 <= j <= d.len() implies 1 <= #[trigger] dims_product(d.skip(j))
            <= dims_product(d) by {
            assert(d.skip(j) =~= d);
        }
    } else {
        let rest = d.drop_first();
        assert forall|j: int| 0 <= j < rest.len() implies #[trigger] rest[j] > 0 by {
            assert(rest[j] == d[j + 1]);
        }
        lemma_suffix_products_bounded(rest);
        let p = dims_product(rest);
        let x = d[0] as int;
        assert(x > 0);
        assert(x * p >= p) by (nonlinear_arith)
            requires
                x >= 1,
                p >= 1,
        ;
        assert forall|j: int| 0 <= j <= d.len() implies 1 <= #[trigger] dims_product(d.skip(j))
            <= dims_product(d) by {
            if j == 0 {
                assert(d.skip(j) =~= d);
            } else {
                assert(d.skip(j) =~= rest.skip(j - 1));
                assert(1 <= dims_product(rest.skip(j - 1)) <= p);
            }
        }
    }
}

/// The products of the counts of `d` from each dimension on, the number of
/// elements among them, each fit in a `usize`.
pub open spec fn strides_fit(d: Seq<usize>) -> bool {
    forall|j: int| 0 <= j <= d.len() ==> #[trigger] dims_product(d.skip(j)) <= usize::MAX
}

/// The number of elements of the dimensions of `dims` from `from` on;
/// `None` where the product of the counts from some dimension on, that one
/// or a later one, does not fit in a `usize`.
pub(crate) fn dims_stride(dims: &Vec<usize>, from: usize) -> (r: Option<usize>)
    requires
        from <= dims@.len(),
    ensures
        match r {
            Some(w) => w == dims_product(dims@.skip(from as int)) && forall|j: int|
                from <= j <= dims@.len() ==> #[trigger] dims_product(dims@.skip(j)) <= usize::MAX,
            None => exists|j: int|
                from <= j <= dims@.len() && #[trigger] dims_product(dims@.skip(j)) > usize::MAX,
        },
{
    let ghost d = dims@;
    let mut p: usize = 1;
    let mut i: usize = dims.len();
    assert(d.skip(i as int) =~= Seq::<usize>::empty());
    while i > from
        invariant
            from <= i <= d.len(),
            d == dims@,
            p == dims_product(d.skip(i as int)),
            forall|j: int| i <= j <= d.len() ==> #[trigger] dims_product(d.skip(j)) <= usize::MAX,
        decreases i,
    {
        let x = dims[i - 1];
        assert(d.skip(i - 1).drop_first() =~= d.skip(i as int));
        assert(d.skip(i - 1)[0] == x);
        assert(dims_product(d.skip(i - 1)) == x * p);
        match x.checked_mul(p) {
            Some(q) => {
                p = q;
            },
            None => {
                assert(dims_product(d.skip(i - 1)) > usize::MAX);
                return None;
            },
        }
        i -= 1;
    }
    Some(p)
}

/// A node of a tree of symbols: a symbol, or a domain holding further nodes
/// by name.
pub enum AdsSymbolNode {
    Null,
    Item(AdsSymbolInfo),
    Domain(Box<NameMap<AdsSymbolNode>>),
}

/// The symbols and data types uploaded from a controller, used to read and
/// write values with the controller's layout.
pub struct AdsSymbolCollection {
    /// The symbols of the controller, in the order of their names.
    pub symbols: NameMap<AdsSymbolInfo>,
    /// The data types of the controller, in the order of their names.
    pub data_types: NameMap<AdsDataTypeInfo>,
}

/// The value of an [`AdsSymbolCollection`].
pub struct CollectionModel {
    pub symbols: Seq<(Seq<char>, SymbolInfoModel)>,
    pub data_types: Seq<(Seq<char>, DataTypeInfoModel)>,
}

impl View for AdsSymbolCollection {
    type V = CollectionModel;

    open spec fn view(&self) -> CollectionModel {
        CollectionModel { symbols: self.symbols@, data_types: self.data_types@ }
    }
}

/// `k` starts with `d`.
pub open spec fn has_prefix(k: Seq<char>, d: Seq<char>) -> bool {
    d.len() <= k.len() && k.subrange(0, d.len() as int) == d
}

/// The symbols of `e` whose names start with `d`, in the order of `e`.
pub open spec fn symbols_in_domain(e: Seq<(Seq<char>, SymbolInfoModel)>, d: Seq<char>) -> Seq<
    SymbolInfoModel,
>
    decreases e.len(),
{
    if e.len() == 0 {
        Seq::empty()
    } else {
        let rest = symbols_in_domain(e.drop_first(), d);
        if has_prefix(e[0].0, d) {
            seq![e[0].1] + rest
        } else {
            rest
        }
    }
}

/// The last symbol of `s` with name `k`, if any.
pub open spec fn last_named(s: Seq<SymbolInfoModel>, k: Seq<char>) -> Option<SymbolInfoModel>
    decreases s.len(),
{
    if s.len() == 0 {
        None
    } else if s.last().name == k {
        Some(s.last())
    } else {
        last_named(s.drop_last(), k)
    }
}

/// `k` starts with `d`.
fn starts_with_chars(k: &Vec<char>, d: &Vec<char>) -> (r: bool)
    ensures
        r == has_prefix(k@, d@),
{
    if d.len() > k.len() {
        return false;
    }
    let mut i: usize = 0;
    while i < d.len()
        invariant
            0 <= i <= d@.len() <= k@.len(),
            forall|j: int| 0 <= j < i ==> k@[j] == d@[j],
        decreases d@.len() - i,
    {
        if k[i] != d[i] {
            assert(k@.subrange(0, d@.len() as int)[i as int] != d@[i as int]);
            return false;
        }
        i += 1;
    }
    assert(k@.subrange(0, d@.len() as int) =~= d@);
    true
}

impl AdsSymbolCollection {
    /// The empty collection.
    pub fn new() -> (r: AdsSymbolCollection)
        ensures
            r@.symbols.len() == 0,
            r@.data_types.len() == 0,
    {
        AdsSymbolCollection { symbols: NameMap::new(), data_types: NameMap::new() }
    }

    /// The collection of `symbols`, each by its name, with no data types.
    /// Of symbols with the same name the last is kept.
    pub fn from_vector(symbols: &Vec<AdsSymbolInfo>) -> (r: AdsSymbolCollection)
        ensures
            sorted_by_name(r@.symbols),
            forall|k: Seq<char>|
                #![trigger lookup(r@.symbols, k)]
                lookup(r@.symbols, k) == last_named(
                    Seq::new(symbols@.len(), |i: int| symbols@[i]@),
                    k,
                ),
            r@.data_types.len() == 0,
    {
        let ghost all = Seq::new(symbols@.len(), |i: int| symbols@[i]@);
        let mut ret = AdsSymbolCollection { symbols: NameMap::new(), data_types: NameMap::new() };
        let mut i: usize = 0;
        while i < symbols.len()
            invariant
                0 <= i <= symbols@.len(),
                all == Seq::new(symbols@.len(), |i: int| symbols@[i]@),
                ret@.data_types.len() == 0,
                forall|k: Seq<char>|
                    #![trigger lookup(ret@.symbols, k)]
                    lookup(ret@.symbols, k) == last_named(all.take(i as int), k),
            decreases symbols@.len() - i,
        {
            let item = &symbols[i];
            let ghost old_syms = ret@.symbols;
            ret.symbols.insert(item.name.clone(), item.clone());
            proof {
                assert(all.take(i + 1).drop_last() =~= all.take(i as int));
                assert(all.take(i + 1).last() == symbols@[i as int]@);
                assert forall|k: Seq<char>| #![trigger lookup(ret@.symbols, k)]
                    lookup(ret@.symbols, k) == last_named(all.take(i + 1), k) by {
                    if k != item.name@ {
                        assert(lookup(ret@.symbols, k) == lookup(old_syms, k));
                    }
                }
            }
            i += 1;
        }
        assert(all.take(symbols@.len() as int) =~= all);
        let _ = ret.symbols.len();
        ret
    }

    /// All symbols whose names start with `domain`, such as `GM` or
    /// `GIO.AXIS_PRESS`, in the order of their names. Empty if there are none.
    pub fn find_symbols_in_domain(&self, domain: &str) -> (r: Vec<AdsSymbolInfo>)
        ensures
            r@.len() == symbols_in_domain(self@.symbols, domain@).len(),
            forall|i: int|
                0 <= i < r@.len() ==> #[trigger] r@[i]@ == symbols_in_domain(
                    self@.symbols,
                    domain@,
                )[i],
    {
        let d = chars_of(domain);
        let mut ret: Vec<AdsSymbolInfo> = Vec::new();
        let ghost e = self@.symbols;
        let n = self.symbols.len();
        let mut i: usize = 0;
        assert(e.skip(0) =~= e);
        while i < n
            invariant
                0 <= i <= n,
                n == e.len(),
                e == self@.symbols,
                d@ == domain@,
                symbols_in_domain(e, d@) =~= Seq::new(ret@.len(), |j: int| ret@[j]@)
                    + symbols_in_domain(e.skip(i as int), d@),
            decreases n - i,
        {
            let (key, value) = self.symbols.entry_at(i);
            let key_chars = chars_of(key.as_str());
            assert(e.skip(i as int).drop_first() =~= e.skip(i + 1));
            if starts_with_chars(&key_chars, &d) {
                let ghost before = Seq::new(ret@.len(), |j: int| ret@[j]@);
                ret.push(value.clone());
                assert(Seq::new(ret@.len(), |j: int| ret@[j]@) =~= before.push(value@));
            }
            i += 1;
        }
        ret
    }
}

/// The word that opens an array declaration.
pub open spec fn array_word() -> Seq<char> {
    seq!['A', 'R', 'R', 'A', 'Y']
}

/// The word, with a space on each side, between the bounds of an array
/// declaration and its element type.
pub open spec fn of_word() -> Seq<char> {
    seq![' ', 'O', 'F', ' ']
}

/// The element type named by an array declaration such as
/// `ARRAY [0..9] OF REAL` (here `REAL`): what follows the first ` OF ` of a
/// type name that starts with `ARRAY`. `None` for any other type name, such
/// as `ST_OFFSET`.
pub open spec fn array_element(t: Seq<char>) -> Option<Seq<char>> {
    if t.len() >= 5 && t.take(5) == array_word() {
        match find(t, of_word()) {
            Some(k) => Some(t.skip(k + 4)),
            None => None,
        }
    } else {
        None
    }
}

/// The fundamental type of a symbol: for an array declaration the element
/// type it names, otherwise the symbol's own type; `None` where that type
/// was not uploaded.
pub open spec fn fundamental_type_info(c: CollectionModel, s: SymbolInfoModel) -> Option<
    DataTypeInfoModel,
> {
    match array_element(s.data_type_name) {
        Some(e) => lookup(c.data_types, e),
        None => lookup(c.data_types, s.data_type_name),
    }
}

/// The position of the second `.` of `n`, if it has two.
pub open spec fn second_dot(n: Seq<char>) -> Option<int> {
    match find_char(n, '.') {
        Some(d1) => match find_char(n.skip(d1 + 1), '.') {
            Some(d2) => Some(d1 + 1 + d2),
            None => None,
        },
        None => None,
    }
}

/// The name of the symbol that holds `n`: `n` up to its second `.`.
pub open spec fn holder_name(n: Seq<char>) -> Seq<char> {
    match second_dot(n) {
        Some(p) => n.take(p),
        None => n,
    }
}

/// What follows the second `.` of `n`; empty if `n` has fewer than two.
pub open spec fn after_holder(n: Seq<char>) -> Seq<char> {
    match second_dot(n) {
        Some(p) => n.skip(p + 1),
        None => Seq::empty(),
    }
}

/// The last of `fields` named `name`; `None` if no field has that name.
pub open spec fn field_named(fields: Seq<SymbolInfoModel>, name: Seq<char>) -> Option<
    SymbolInfoModel,
>
    decreases fields.len(),
{
    if fields.len() == 0 {
        None
    } else if fields.last().name == name {
        Some(fields.last())
    } else {
        field_named(fields.drop_last(), name)
    }
}

/// The symbol reached from `s` by following the field names of `path`, each
/// looked up among the fields of the fundamental type of the one before.
/// Fails where a type on the way was not uploaded, or where it has no field
/// of the next name.
pub open spec fn walk_fields(c: CollectionModel, s: SymbolInfoModel, path: Seq<Seq<char>>) -> Result<
    SymbolInfoModel,
    AdsError,
>
    decreases path.len(),
{
    if path.len() == 0 {
        Ok(s)
    } else {
        match fundamental_type_info(c, s) {
            None => Err(AdsError::FieldTypeNotFound),
            Some(dt) => match field_named(dt.fields, path[0]) {
                None => Err(AdsError::FieldNotFound),
                Some(f) => walk_fields(c, f, path.drop_first()),
            },
        }
    }
}

/// The information on the symbol named `n`, or on a field of a symbol,
/// nested to any depth, named `SYMBOL.FIELD.FIELD...`. The symbol holding
/// `n` is the one named by `n` up to its second `.`; the pieces of the rest
/// name the fields on the way.
pub open spec fn symbol_info_result(c: CollectionModel, n: Seq<char>) -> Result<
    SymbolInfoModel,
    AdsError,
> {
    match lookup(c.symbols, holder_name(n)) {
        None => Err(AdsError::SymbolNotFound),
        Some(sym) => match second_dot(n) {
            None => Ok(sym),
            Some(_) => walk_fields(c, sym, split_on(after_holder(n), '.')),
        },
    }
}

/// The position of `c` in `s`, as `find_chars` gives it for a one-character needle.
fn find_one(s: &Vec<char>, c: char) -> (r: Option<usize>)
    ensures
        match r {
            Some(k) => find_char(s@, c) == Some(k as int) && k < s@.len(),
            None => find_char(s@, c) is None,
        },
{
    let needle = vec![c];
    assert(needle@ =~= seq![c]);
    let r = find_chars(s, &needle);
    proof {
        lemma_find_from(s@, seq![c], 0);
    }
    r
}

/// The characters of `s` from position `from` on.
fn tail_of(s: &Vec<char>, from: usize) -> (r: Vec<char>)
    requires
        from <= s@.len(),
    ensures
        r@ == s@.skip(from as int),
{
    let mut r: Vec<char> = Vec::new();
    let mut i = from;
    while i < s.len()
        invariant
            from <= i <= s@.len(),
            r@ == s@.subrange(from as int, i as int),
        decreases s@.len() - i,
    {
        r.push(s[i]);
        i += 1;
    }
    assert(r@ =~= s@.skip(from as int));
    r
}

/// The element type named by the array declaration `t`, as `array_element`
/// gives it.
pub(crate) fn array_element_of(t: &Vec<char>) -> (r: Option<Vec<char>>)
    ensures
        match r {
            Some(e) => array_element(t@) == Some(e@),
            None => array_element(t@) is None,
        },
{
    let n = t.len();
    if n < 5 {
        return None;
    }
    if !(t[0] == 'A' && t[1] == 'R' && t[2] == 'R' && t[3] == 'A' && t[4] == 'Y') {
        assert(t@.take(5)[0] != 'A' || t@.take(5)[1] != 'R' || t@.take(5)[2] != 'R'
            || t@.take(5)[3] != 'A' || t@.take(5)[4] != 'Y');
        assert(t@.take(5) != array_word());
        return None;
    }
    assert(t@.take(5) =~= array_word());
    let word = vec![' ', 'O', 'F', ' '];
    assert(word@ =~= of_word());
    match find_chars(t, &word) {
        Some(k) => {
            proof {
                lemma_find_from(t@, word@, 0);
            }
            assert(k + 4 <= n);
            Some(tail_of(t, k + 4))
        },
        None => None,
    }
}

/// The characters of `s` before position `to`.
fn head_of(s: &Vec<char>, to: usize) -> (r: Vec<char>)
    requires
        to <= s@.len(),
    ensures
        r@ == s@.take(to as int),
{
    let mut r: Vec<char> = Vec::new();
    let mut i: usize = 0;
    while i < to
        invariant
            0 <= i <= to <= s@.len(),
            r@ == s@.subrange(0, i as int),
        decreases to - i,
    {
        r.push(s[i]);
        i += 1;
    }
    assert(r@ =~= s@.take(to as int));
    r
}

impl AdsSymbolCollection {
    /// The fundamental type of a symbol. For plain data it is the symbol's own
    /// type. For an array, such as `ARRAY [0..9] OF REAL`, it is the type named
    /// after the word `OF` (here `REAL`). `None` if that type was not uploaded.
    pub fn get_fundamental_type_info(&self, symbol_info: &AdsSymbolInfo) -> (r: Option<
        AdsDataTypeInfo,
    >)
        ensures
            match r {
                Some(dt) => fundamental_type_info(self@, symbol_info@) == Some(dt@),
                None => fundamental_type_info(self@, symbol_info@) is None,
            },
    {
        let tn = chars_of(symbol_info.data_type_name.as_str());
        let key = match array_element_of(&tn) {
            Some(e) => string_from_chars(e.as_slice()),
            None => string_from_chars(tn.as_slice()),
        };
        match self.data_types.get(&key) {
            Some(dt) => Some(dt.clone()),
            None => None,
        }
    }

    /// Follows the field names of `path` from `start`.
    fn walk_path(&self, start: AdsSymbolInfo, path: &Vec<Vec<char>>) -> (r: Result<
        AdsSymbolInfo,
        AdsError,
    >)
        ensures
            match r {
                Ok(s) => walk_fields(self@, start@, Seq::new(path@.len(), |i: int| path@[i]@))
                    == Ok::<SymbolInfoModel, AdsError>(s@),
                Err(e) => walk_fields(self@, start@, Seq::new(path@.len(), |i: int| path@[i]@))
                    == Err::<SymbolInfoModel, AdsError>(e),
            },
    {
        let ghost full = Seq::new(path@.len(), |i: int| path@[i]@);
        let mut tmp = start;
        let mut i: usize = 0;
        assert(full.skip(0) =~= full);
        while i < path.len()
            invariant
                0 <= i <= path@.len(),
                full == Seq::new(path@.len(), |i: int| path@[i]@),
                walk_fields(self@, start@, full) == walk_fields(self@, tmp@, full.skip(i as int)),
            decreases path@.len() - i,
        {
            assert(full.skip(i as int)[0] == path@[i as int]@);
            assert(full.skip(i as int).drop_first() =~= full.skip(i + 1));
            let field_name = string_from_chars(path[i].as_slice());
            match self.get_fundamental_type_info(&tmp) {
                Some(dt) => {
                    let ghost fields = dt@.fields;
                    let mut found: Option<usize> = None;
                    let mut j: usize = 0;
                    assert(fields.take(0) =~= Seq::<SymbolInfoModel>::empty());
                    while j < dt.fields.len()
                        invariant
                            0 <= j <= dt.fields@.len(),
                            fields == dt@.fields,
                            fields.len() == dt.fields@.len(),
                            match found {
                                None => field_named(fields.take(j as int), field_name@) is None,
                                Some(x) => x < j && field_named(fields.take(j as int), field_name@)
                                    == Some(fields[x as int]),
                            },
                        decreases dt.fields@.len() - j,
                    {
                        assert(fields.take(j + 1).drop_last() =~= fields.take(j as int));
                        assert(fields.take(j + 1).last() == dt.fields@[j as int]@);
                        if dt.fields[j].name == field_name {
                            found = Some(j);
                        }
                        j += 1;
                    }
                    assert(fields.take(j as int) =~= fields);
                    match found {
                        None => {
                            return Err(AdsError::FieldNotFound);
                        },
                        Some(x) => {
                            tmp = dt.fields[x].clone();
                        },
                    }
                },
                None => {
                    return Err(AdsError::FieldTypeNotFound);
                },
            }
            i += 1;
        }
        assert(full.skip(i as int).len() == 0);
        Ok(tmp)
    }

    /// The information on a symbol named by its full name, such as
    /// `GVL.nCounter`. For a field of a symbol, such as
    /// `GVL.stAxis.fPosition`, nested to any depth, the information on that
    /// field.
    pub fn get_symbol_info(&self, symbol_name: &str) -> (r: Result<AdsSymbolInfo, AdsError>)
        ensures
            match r {
                Ok(s) => symbol_info_result(self@, symbol_name@) == Ok::<SymbolInfoModel, AdsError>(s@),
                Err(e) => symbol_info_result(self@, symbol_name@) == Err::<SymbolInfoModel, AdsError>(e),
            },
    {
        let n = chars_of(symbol_name);
        let n_len = n.len();
        let first = find_one(&n, '.');
        let mut second: Option<usize> = None;
        let mut rest: Vec<char> = Vec::new();
        match first {
            Some(d1) => {
                assert(d1 < n_len);
                let after = tail_of(&n, d1 + 1);
                match find_one(&after, '.') {
                    Some(d2) => {
                        assert(d1 + 1 + d2 < n_len);
                        second = Some(d1 + 1 + d2);
                        rest = tail_of(&n, d1 + 1 + d2 + 1);
                    },
                    None => {},
                }
            },
            None => {},
        }
        assert(second matches Some(p) ==> second_dot(n@) == Some(p as int));
        assert(second is None ==> second_dot(n@) is None);
        assert(rest@ =~= after_holder(n@));
        let holder = match second {
            Some(p) => string_from_chars(head_of(&n, p).as_slice()),
            None => string_from_chars(n.as_slice()),
        };
        assert(holder@ == holder_name(n@));
        match self.symbols.get(&holder) {
            None => Err(AdsError::SymbolNotFound),
            Some(symbol) => {
                if second.is_none() {
                    Ok(symbol.clone())
                } else {
                    let path = split_chars(&rest, '.');
                    let ghost pv = Seq::new(path@.len(), |i: int| path@[i]@);
                    assert(pv =~= split_on(after_holder(n@), '.'));
                    self.walk_path(symbol.clone(), &path)
                }
            },
        }
    }
}

impl ViewCopy for AdsSymbolInfo {
    fn view_copy(&self) -> (r: Self) {
        self.clone()
    }
}

impl ViewCopy for AdsDataTypeInfo {
    fn view_copy(&self) -> (r: Self) {
        self.clone()
    }
}

impl Clone for AdsSymbolCollection {
    /// A collection with the same symbols and data types.
    fn clone(&self) -> (r: Self)
        ensures
            r@ == self@,
    {
        AdsSymbolCollection { symbols: self.symbols.clone(), data_types: self.data_types.clone() }
    }
}

} // verus!
