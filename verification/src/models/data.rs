//! Data types, data fields and objects, and their rendering as Rust source.
use crate::models::meta::{metas_block, metas_display, metas_to_display, metas_to_literal_prefixed, Meta};
use crate::models::Entity;
use crate::text::{copy_string, decimal, indent_literal, indent_seq, indent_unit, join, join_seqs, repeat_string, repeat_seq, usize_to_string, views};
use vstd::string::StrSliceExecFns;
use vstd::prelude::*;

verus! {

/// The data types a manifest can name.
#[derive(Debug)]
pub enum DataType {
    Boolean,
    Character,
    String,
    Byte,
    UnsignedByte,
    Short,
    UnsignedShort,
    Integer,
    UnsignedInteger,
    Size,
    UnsignedSize,
    Long,
    UnsignedLong,
    LongLong,
    UnsignedLongLong,
    Float,
    Double,
    PathBuf,
    Count32,
    Averagef32,
    Object(String),
    Booleans,
    Characters,
    Strings,
    Bytes,
    UnsignedBytes,
    Shorts,
    UnsignedShorts,
    Integers,
    UnsignedIntegers,
    Sizes,
    UnsignedSizes,
    Longs,
    UnsignedLongs,
    LongLongs,
    UnsignedLongLongs,
    Floats,
    Doubles,
    PathBufs,
    Count32s,
    Averagef32s,
    Objects(String),
    Vec { ty: Box<DataType> },
    Array { ty: Box<DataType>, size: usize },
    Tuple { tys: Vec<DataType> },
    HashMap { kty: Box<DataType>, vty: Box<DataType> },
    HashSet { ty: Box<DataType> },
    Pair { lty: Box<DataType>, rty: Box<DataType> },
    Tuples { tys: Vec<DataType> },
    Pairs { lty: Box<DataType>, rty: Box<DataType> },
}

fn copy_data_types(ty: &DataType, tys: &Vec<DataType>) -> (r: Vec<DataType>)
    requires
        (*ty is Tuple && ty->Tuple_tys == *tys) || (*ty is Tuples && ty->Tuples_tys == *tys),
    ensures
        data_tys_lits(r@) == data_tys_lits(tys@),
    decreases ty, 0nat,
{
    let mut r: Vec<DataType> = Vec::new();
    let mut i: usize = 0;
    while i < tys.len()
        invariant
            i <= tys.len(),
            (*ty is Tuple && ty->Tuple_tys == *tys) || (*ty is Tuples && ty->Tuples_tys == *tys),
            r.len() == i,
            forall|j: int| 0 <= j < i ==> data_ty_lit(#[trigger] r@[j]) == data_ty_lit(tys@[j]),
        decreases tys.len() - i,
    {
        proof {
            if *ty is Tuple {
                assert(decreases_to!(*ty => ty->Tuple_tys));
            } else {
                assert(decreases_to!(*ty => ty->Tuples_tys));
            }
            assert(decreases_to!(*tys => tys@));
            assert(decreases_to!(tys@ => tys@[i as int]));
        }
        let t = copy_data_type(&tys[i]);
        r.push(t);
        i = i + 1;
    }
    proof {
        lemma_data_tys_lits(r@);
        lemma_data_tys_lits(tys@);
        assert(data_tys_lits(r@) =~= data_tys_lits(tys@));
    }
    r
}

/// A copy of a data type: it is written the same way in code.
pub fn copy_data_type(ty: &DataType) -> (r: DataType)
    ensures
        data_ty_lit(r) == data_ty_lit(*ty),
    decreases ty, 1nat,
{
    match ty {
        DataType::Boolean => DataType::Boolean,
        DataType::Character => DataType::Character,
        DataType::String => DataType::String,
        DataType::Byte => DataType::Byte,
        DataType::UnsignedByte => DataType::UnsignedByte,
        DataType::Short => DataType::Short,
        DataType::UnsignedShort => DataType::UnsignedShort,
        DataType::Integer => DataType::Integer,
        DataType::UnsignedInteger => DataType::UnsignedInteger,
        DataType::Size => DataType::Size,
        DataType::UnsignedSize => DataType::UnsignedSize,
        DataType::Long => DataType::Long,
        DataType::UnsignedLong => DataType::UnsignedLong,
        DataType::LongLong => DataType::LongLong,
        DataType::UnsignedLongLong => DataType::UnsignedLongLong,
        DataType::Float => DataType::Float,
        DataType::Double => DataType::Double,
        DataType::PathBuf => DataType::PathBuf,
        DataType::Count32 => DataType::Count32,
        DataType::Averagef32 => DataType::Averagef32,
        DataType::Booleans => DataType::Booleans,
        DataType::Characters => DataType::Characters,
        DataType::Strings => DataType::Strings,
        DataType::Bytes => DataType::Bytes,
        DataType::UnsignedBytes => DataType::UnsignedBytes,
        DataType::Shorts => DataType::Shorts,
        DataType::UnsignedShorts => DataType::UnsignedShorts,
        DataType::Integers => DataType::Integers,
        DataType::UnsignedIntegers => DataType::UnsignedIntegers,
        DataType::Sizes => DataType::Sizes,
        DataType::UnsignedSizes => DataType::UnsignedSizes,
        DataType::Longs => DataType::Longs,
        DataType::UnsignedLongs => DataType::UnsignedLongs,
        DataType::LongLongs => DataType::LongLongs,
        DataType::UnsignedLongLongs => DataType::UnsignedLongLongs,
        DataType::Floats => DataType::Floats,
        DataType::Doubles => DataType::Doubles,
        DataType::PathBufs => DataType::PathBufs,
        DataType::Count32s => DataType::Count32s,
        DataType::Averagef32s => DataType::Averagef32s,
        DataType::Object(s) => DataType::Object(s.clone()),
        DataType::Objects(s) => DataType::Objects(s.clone()),
        DataType::Vec { ty: t } => DataType::Vec { ty: Box::new(copy_data_type(t)) },
        DataType::Array { ty: t, size } => DataType::Array { ty: Box::new(copy_data_type(t)), size: *size },
        DataType::Tuple { tys } => DataType::Tuple { tys: copy_data_types(ty, tys) },
        DataType::HashMap { kty, vty } => DataType::HashMap { kty: Box::new(copy_data_type(kty)), vty: Box::new(copy_data_type(vty)) },
        DataType::HashSet { ty: t } => DataType::HashSet { ty: Box::new(copy_data_type(t)) },
        DataType::Pair { lty, rty } => DataType::Pair { lty: Box::new(copy_data_type(lty)), rty: Box::new(copy_data_type(rty)) },
        DataType::Tuples { tys } => DataType::Tuples { tys: copy_data_types(ty, tys) },
        DataType::Pairs { lty, rty } => DataType::Pairs { lty: Box::new(copy_data_type(lty)), rty: Box::new(copy_data_type(rty)) },
    }
}

/// `std::vec::Vec<t>`.
pub open spec fn vec_of(t: Seq<char>) -> Seq<char> {
    "std::vec::Vec<"@ + t + ">"@
}

/// `(t1, t2, ..)`.
pub open spec fn tuple_of(ts: Seq<Seq<char>>) -> Seq<char> {
    "("@ + join_seqs(ts, ", "@) + ")"@
}

/// `Pair<l, r>`.
pub open spec fn pair_of(l: Seq<char>, r: Seq<char>) -> Seq<char> {
    "Pair<"@ + l + ", "@ + r + ">"@
}

/// The Rust type name of the non-collection types, and of the element type of
/// their plural (vector) forms.
pub open spec fn scalar_lit(ty: DataType) -> Option<Seq<char>> {
    match ty {
        DataType::Boolean | DataType::Booleans => Some("bool"@),
        DataType::Character | DataType::Characters => Some("char"@),
        DataType::String | DataType::Strings => Some("String"@),
        DataType::Byte | DataType::Bytes => Some("i8"@),
        DataType::UnsignedByte | DataType::UnsignedBytes => Some("u8"@),
        DataType::Short | DataType::Shorts => Some("i16"@),
        DataType::UnsignedShort | DataType::UnsignedShorts => Some("u16"@),
        DataType::Integer | DataType::Integers => Some("i32"@),
        DataType::UnsignedInteger | DataType::UnsignedIntegers => Some("u32"@),
        DataType::Size | DataType::Sizes => Some("isize"@),
        DataType::UnsignedSize | DataType::UnsignedSizes => Some("usize"@),
        DataType::Long | DataType::Longs => Some("i64"@),
        DataType::UnsignedLong | DataType::UnsignedLongs => Some("u64"@),
        DataType::LongLong | DataType::LongLongs => Some("i128"@),
        DataType::UnsignedLongLong | DataType::UnsignedLongLongs => Some("u128"@),
        DataType::Float | DataType::Floats => Some("f32"@),
        DataType::Double | DataType::Doubles => Some("f64"@),
        DataType::PathBuf | DataType::PathBufs => Some("std::path::PathBuf"@),
        DataType::Count32 | DataType::Count32s => Some("Count32"@),
        DataType::Averagef32 | DataType::Averagef32s => Some("Averagef32"@),
        DataType::Object(o) | DataType::Objects(o) => Some(o@),
        _ => None,
    }
}

/// The plural forms, which stand for a vector of their element type.
pub open spec fn is_plural(ty: DataType) -> bool {
    match ty {
        DataType::Booleans | DataType::Characters | DataType::Strings | DataType::Bytes
        | DataType::UnsignedBytes | DataType::Shorts | DataType::UnsignedShorts
        | DataType::Integers | DataType::UnsignedIntegers | DataType::Sizes
        | DataType::UnsignedSizes | DataType::Longs | DataType::UnsignedLongs
        | DataType::LongLongs | DataType::UnsignedLongLongs | DataType::Floats
        | DataType::Doubles | DataType::PathBufs | DataType::Count32s | DataType::Averagef32s
        | DataType::Objects(_) => true,
        _ => false,
    }
}

/// The Rust type expression of a data type.
pub open spec fn data_ty_lit(ty: DataType) -> Seq<char>
    decreases ty,
{
    match ty {
        DataType::Vec { ty } => vec_of(data_ty_lit(*ty)),
        DataType::Array { ty, size } => "["@ + data_ty_lit(*ty) + "; "@ + decimal(size as nat) + "]"@,
        DataType::Tuple { tys } => tuple_of(data_tys_lits(tys@)),
        DataType::HashMap { kty, vty } => "std::collections::HashMap<"@ + data_ty_lit(*kty) + ", "@
            + data_ty_lit(*vty) + ">"@,
        DataType::HashSet { ty } => "std::collections::HashSet<"@ + data_ty_lit(*ty) + ">"@,
        DataType::Pair { lty, rty } => pair_of(data_ty_lit(*lty), data_ty_lit(*rty)),
        DataType::Tuples { tys } => vec_of(tuple_of(data_tys_lits(tys@))),
        DataType::Pairs { lty, rty } => vec_of(pair_of(data_ty_lit(*lty), data_ty_lit(*rty))),
        _ => if is_plural(ty) {
            vec_of(scalar_lit(ty).unwrap())
        } else {
            scalar_lit(ty).unwrap()
        },
    }
}

/// The element type of a plural type: `Booleans` holds `Boolean`s,
/// `Objects(o)` holds `Object(o)`s, `Tuples` holds `Tuple`s, `Pairs` holds
/// `Pair`s; `None` for the other types.
pub open spec fn plural_element(ty: DataType) -> Option<DataType> {
    match ty {
        DataType::Booleans => Some(DataType::Boolean),
        DataType::Characters => Some(DataType::Character),
        DataType::Strings => Some(DataType::String),
        DataType::Bytes => Some(DataType::Byte),
        DataType::UnsignedBytes => Some(DataType::UnsignedByte),
        DataType::Shorts => Some(DataType::Short),
        DataType::UnsignedShorts => Some(DataType::UnsignedShort),
        DataType::Integers => Some(DataType::Integer),
        DataType::UnsignedIntegers => Some(DataType::UnsignedInteger),
        DataType::Sizes => Some(DataType::Size),
        DataType::UnsignedSizes => Some(DataType::UnsignedSize),
        DataType::Longs => Some(DataType::Long),
        DataType::UnsignedLongs => Some(DataType::UnsignedLong),
        DataType::LongLongs => Some(DataType::LongLong),
        DataType::UnsignedLongLongs => Some(DataType::UnsignedLongLong),
        DataType::Floats => Some(DataType::Float),
        DataType::Doubles => Some(DataType::Double),
        DataType::PathBufs => Some(DataType::PathBuf),
        DataType::Count32s => Some(DataType::Count32),
        DataType::Averagef32s => Some(DataType::Averagef32),
        DataType::Objects(o) => Some(DataType::Object(o)),
        DataType::Tuples { tys } => Some(DataType::Tuple { tys }),
        DataType::Pairs { lty, rty } => Some(DataType::Pair { lty, rty }),
        _ => None,
    }
}

/// A plural type is written as a vector of its element type; a vector, an
/// array, a tuple and a pair are written `std::vec::Vec<T>`, `[T; n]`,
/// `(T1, T2, ..)` and `Pair<L, R>` around the types they hold.
pub proof fn lemma_data_ty_lit_forms(ty: DataType)
    ensures
        plural_element(ty) matches Some(e) ==> data_ty_lit(ty) == data_ty_lit(DataType::Vec { ty: Box::new(e) }),
        ty matches DataType::Vec { ty: t } ==> data_ty_lit(ty) == "std::vec::Vec<"@ + data_ty_lit(*t) + ">"@,
        ty matches DataType::Array { ty: t, size } ==> data_ty_lit(ty) == "["@ + data_ty_lit(*t) + "; "@ + decimal(
            size as nat,
        ) + "]"@,
        ty matches DataType::Tuple { tys } ==> data_ty_lit(ty) == "("@ + join_seqs(
            tys@.map_values(|t: DataType| data_ty_lit(t)),
            ", "@,
        ) + ")"@,
        ty matches DataType::Pair { lty, rty } ==> data_ty_lit(ty) == "Pair<"@ + data_ty_lit(*lty) + ", "@
            + data_ty_lit(*rty) + ">"@,
{
    match ty {
        DataType::Tuple { tys } => {
            assert(plural_element(ty) is None);
            lemma_data_tys_lits(tys@);
            assert(data_tys_lits(tys@) =~= tys@.map_values(|t: DataType| data_ty_lit(t)));
        },
        DataType::Tuples { tys } => {
            let e = DataType::Tuple { tys };
            assert(data_ty_lit(DataType::Vec { ty: Box::new(e) }) == vec_of(data_ty_lit(e)));
        },
        DataType::Pairs { lty, rty } => {
            let e = DataType::Pair { lty, rty };
            assert(data_ty_lit(DataType::Vec { ty: Box::new(e) }) == vec_of(data_ty_lit(e)));
        },
        _ => {
            if let Some(e) = plural_element(ty) {
                assert(!is_plural(e));
                assert(scalar_lit(e) == scalar_lit(ty));
                assert(data_ty_lit(e) == scalar_lit(e).unwrap());
                assert(is_plural(ty));
                assert(data_ty_lit(ty) == vec_of(scalar_lit(ty).unwrap()));
                assert(data_ty_lit(DataType::Vec { ty: Box::new(e) }) == vec_of(data_ty_lit(e)));
            }
        },
    }
}

/// The Rust type each scalar data type is written as: the booleans, the
/// characters, strings, the signed and unsigned integers of each width, the
/// two float widths, paths and the counting types; each plural as a vector of
/// its scalar; an object as its type name.
pub proof fn lemma_scalar_type_literals()
    ensures
        data_ty_lit(DataType::Boolean) == "bool"@,
        data_ty_lit(DataType::Character) == "char"@,
        data_ty_lit(DataType::String) == "String"@,
        data_ty_lit(DataType::Byte) == "i8"@,
        data_ty_lit(DataType::UnsignedByte) == "u8"@,
        data_ty_lit(DataType::Short) == "i16"@,
        data_ty_lit(DataType::UnsignedShort) == "u16"@,
        data_ty_lit(DataType::Integer) == "i32"@,
        data_ty_lit(DataType::UnsignedInteger) == "u32"@,
        data_ty_lit(DataType::Size) == "isize"@,
        data_ty_lit(DataType::UnsignedSize) == "usize"@,
        data_ty_lit(DataType::Long) == "i64"@,
        data_ty_lit(DataType::UnsignedLong) == "u64"@,
        data_ty_lit(DataType::LongLong) == "i128"@,
        data_ty_lit(DataType::UnsignedLongLong) == "u128"@,
        data_ty_lit(DataType::Float) == "f32"@,
        data_ty_lit(DataType::Double) == "f64"@,
        data_ty_lit(DataType::PathBuf) == "std::path::PathBuf"@,
        data_ty_lit(DataType::Count32) == "Count32"@,
        data_ty_lit(DataType::Averagef32) == "Averagef32"@,
        data_ty_lit(DataType::Booleans) == "std::vec::Vec<"@ + "bool"@ + ">"@,
        data_ty_lit(DataType::Characters) == "std::vec::Vec<"@ + "char"@ + ">"@,
        data_ty_lit(DataType::Strings) == "std::vec::Vec<"@ + "String"@ + ">"@,
        data_ty_lit(DataType::Bytes) == "std::vec::Vec<"@ + "i8"@ + ">"@,
        data_ty_lit(DataType::UnsignedBytes) == "std::vec::Vec<"@ + "u8"@ + ">"@,
        data_ty_lit(DataType::Shorts) == "std::vec::Vec<"@ + "i16"@ + ">"@,
        data_ty_lit(DataType::UnsignedShorts) == "std::vec::Vec<"@ + "u16"@ + ">"@,
        data_ty_lit(DataType::Integers) == "std::vec::Vec<"@ + "i32"@ + ">"@,
        data_ty_lit(DataType::UnsignedIntegers) == "std::vec::Vec<"@ + "u32"@ + ">"@,
        data_ty_lit(DataType::Sizes) == "std::vec::Vec<"@ + "isize"@ + ">"@,
        data_ty_lit(DataType::UnsignedSizes) == "std::vec::Vec<"@ + "usize"@ + ">"@,
        data_ty_lit(DataType::Longs) == "std::vec::Vec<"@ + "i64"@ + ">"@,
        data_ty_lit(DataType::UnsignedLongs) == "std::vec::Vec<"@ + "u64"@ + ">"@,
        data_ty_lit(DataType::LongLongs) == "std::vec::Vec<"@ + "i128"@ + ">"@,
        data_ty_lit(DataType::UnsignedLongLongs) == "std::vec::Vec<"@ + "u128"@ + ">"@,
        data_ty_lit(DataType::Floats) == "std::vec::Vec<"@ + "f32"@ + ">"@,
        data_ty_lit(DataType::Doubles) == "std::vec::Vec<"@ + "f64"@ + ">"@,
        data_ty_lit(DataType::PathBufs) == "std::vec::Vec<"@ + "std::path::PathBuf"@ + ">"@,
        data_ty_lit(DataType::Count32s) == "std::vec::Vec<"@ + "Count32"@ + ">"@,
        data_ty_lit(DataType::Averagef32s) == "std::vec::Vec<"@ + "Averagef32"@ + ">"@,
        forall|o: String| #[trigger] data_ty_lit(DataType::Object(o)) == o@,
        forall|o: String| #[trigger] data_ty_lit(DataType::Objects(o)) == "std::vec::Vec<"@ + o@ + ">"@,
{
}

/// The type expressions of a sequence of data types.
pub open spec fn data_tys_lits(tys: Seq<DataType>) -> Seq<Seq<char>>
    decreases tys,
{
    if tys.len() == 0 {
        Seq::empty()
    } else {
        data_tys_lits(tys.drop_last()).push(data_ty_lit(tys.last()))
    }
}

proof fn lemma_data_tys_lits(tys: Seq<DataType>)
    ensures
        data_tys_lits(tys).len() == tys.len(),
        forall|i: int| 0 <= i < tys.len() ==> #[trigger] data_tys_lits(tys)[i] == data_ty_lit(tys[i]),
    decreases tys.len(),
{
    if tys.len() > 0 {
        lemma_data_tys_lits(tys.drop_last());
    }
}

fn scalar_literal(ty: &DataType) -> (r: String)
    requires
        scalar_lit(*ty) is Some,
    ensures
        r@ == scalar_lit(*ty).unwrap(),
{
    match ty {
        DataType::Boolean | DataType::Booleans => String::from_str("bool"),
        DataType::Character | DataType::Characters => String::from_str("char"),
        DataType::String | DataType::Strings => String::from_str("String"),
        DataType::Byte | DataType::Bytes => String::from_str("i8"),
        DataType::UnsignedByte | DataType::UnsignedBytes => String::from_str("u8"),
        DataType::Short | DataType::Shorts => String::from_str("i16"),
        DataType::UnsignedShort | DataType::UnsignedShorts => String::from_str("u16"),
        DataType::Integer | DataType::Integers => String::from_str("i32"),
        DataType::UnsignedInteger | DataType::UnsignedIntegers => String::from_str("u32"),
        DataType::Size | DataType::Sizes => String::from_str("isize"),
        DataType::UnsignedSize | DataType::UnsignedSizes => String::from_str("usize"),
        DataType::Long | DataType::Longs => String::from_str("i64"),
        DataType::UnsignedLong | DataType::UnsignedLongs => String::from_str("u64"),
        DataType::LongLong | DataType::LongLongs => String::from_str("i128"),
        DataType::UnsignedLongLong | DataType::UnsignedLongLongs => String::from_str("u128"),
        DataType::Float | DataType::Floats => String::from_str("f32"),
        DataType::Double | DataType::Doubles => String::from_str("f64"),
        DataType::PathBuf | DataType::PathBufs => String::from_str("std::path::PathBuf"),
        DataType::Count32 | DataType::Count32s => String::from_str("Count32"),
        DataType::Averagef32 | DataType::Averagef32s => String::from_str("Averagef32"),
        DataType::Object(o) | DataType::Objects(o) => copy_string(o),
        _ => String::new(),
    }
}

fn wrap(before: &str, inner: &str, after: &str) -> (r: String)
    ensures
        r@ == before@ + inner@ + after@,
{
    let mut r = String::from_str(before);
    r.append(inner);
    r.append(after);
    r
}

fn vec_literal(inner: &str) -> (r: String)
    ensures
        r@ == vec_of(inner@),
{
    wrap("std::vec::Vec<", inner, ">")
}

fn pair_literal(l: &str, r: &str) -> (res: String)
    ensures
        res@ == pair_of(l@, r@),
{
    let mut res = String::from_str("Pair<");
    res.append(l);
    res.append(", ");
    res.append(r);
    res.append(">");
    res
}

fn tuple_literal(ty: &DataType, tys: &Vec<DataType>) -> (r: String)
    requires
        (*ty is Tuple && ty->Tuple_tys == *tys) || (*ty is Tuples && ty->Tuples_tys == *tys),
    ensures
        r@ == tuple_of(data_tys_lits(tys@)),
    decreases ty, 0nat,
{
    proof {
        lemma_data_tys_lits(tys@);
    }
    let mut lits: Vec<String> = Vec::new();
    let mut i: usize = 0;
    while i < tys.len()
        invariant
            i <= tys.len(),
            (*ty is Tuple && ty->Tuple_tys == *tys) || (*ty is Tuples && ty->Tuples_tys == *tys),
            data_tys_lits(tys@).len() == tys@.len(),
            forall|j: int| 0 <= j < tys@.len() ==> #[trigger] data_tys_lits(tys@)[j] == data_ty_lit(tys@[j]),
            lits.len() == i,
            forall|j: int| 0 <= j < i ==> #[trigger] lits@[j]@ == data_ty_lit(tys@[j]),
        decreases tys.len() - i,
    {
        proof {
            if *ty is Tuple {
                assert(decreases_to!(*ty => ty->Tuple_tys));
            } else {
                assert(decreases_to!(*ty => ty->Tuples_tys));
            }
            assert(decreases_to!(*tys => tys@));
            assert(decreases_to!(tys@ => tys@[i as int]));
        }
        lits.push(data_ty_to_literal(&tys[i]));
        i = i + 1;
    }
    assert(views(lits@) =~= data_tys_lits(tys@));
    let joined = join(&lits, ", ");
    wrap("(", joined.as_str(), ")")
}

/// The Rust type expression of a data type.
pub fn data_ty_to_literal(ty: &DataType) -> (r: String)
    ensures
        r@ == data_ty_lit(*ty),
    decreases ty, 1nat,
{
    match ty {
        DataType::Vec { ty: inner } => {
            let lit = data_ty_to_literal(inner);
            vec_literal(lit.as_str())
        },
        DataType::Array { ty: inner, size } => {
            let lit = data_ty_to_literal(inner);
            let size_lit = usize_to_string(*size);
            let mut r = String::from_str("[");
            r.append(lit.as_str());
            r.append("; ");
            r.append(size_lit.as_str());
            r.append("]");
            r
        },
        DataType::Tuple { tys } => tuple_literal(ty, tys),
        DataType::HashMap { kty, vty } => {
            let k = data_ty_to_literal(kty);
            let v = data_ty_to_literal(vty);
            let mut r = String::from_str("std::collections::HashMap<");
            r.append(k.as_str());
            r.append(", ");
            r.append(v.as_str());
            r.append(">");
            r
        },
        DataType::HashSet { ty: inner } => {
            let lit = data_ty_to_literal(inner);
            wrap("std::collections::HashSet<", lit.as_str(), ">")
        },
        DataType::Pair { lty, rty } => {
            let l = data_ty_to_literal(lty);
            let r = data_ty_to_literal(rty);
            pair_literal(l.as_str(), r.as_str())
        },
        DataType::Tuples { tys } => {
            let lit = tuple_literal(ty, tys);
            vec_literal(lit.as_str())
        },
        DataType::Pairs { lty, rty } => {
            let l = data_ty_to_literal(lty);
            let r = data_ty_to_literal(rty);
            let p = pair_literal(l.as_str(), r.as_str());
            vec_literal(p.as_str())
        },
        DataType::Booleans | DataType::Characters | DataType::Strings | DataType::Bytes
        | DataType::UnsignedBytes | DataType::Shorts | DataType::UnsignedShorts
        | DataType::Integers | DataType::UnsignedIntegers | DataType::Sizes
        | DataType::UnsignedSizes | DataType::Longs | DataType::UnsignedLongs
        | DataType::LongLongs | DataType::UnsignedLongLongs | DataType::Floats
        | DataType::Doubles | DataType::PathBufs | DataType::Count32s | DataType::Averagef32s
        | DataType::Objects(_) => {
            let lit = scalar_literal(ty);
            vec_literal(lit.as_str())
        },
        _ => scalar_literal(ty),
    }
}


/// A named or unnamed field of an object, or a pipe's output type.
#[derive(Debug)]
pub struct DataField {
    pub name: Option<String>,
    pub ty: DataType,
    pub metas: Option<Vec<Meta>>,
    pub is_boxed: Option<bool>,
    pub is_optional: Option<bool>,
    pub is_public: Option<bool>,
}

/// `o`'s value, or `d` when absent.
pub open spec fn opt_or<T>(o: Option<T>, d: T) -> T {
    match o {
        Some(v) => v,
        None => d,
    }
}

/// `new` is `old` with every option that `init` fills in filled in: not boxed,
/// not optional, public, and no attributes.
pub open spec fn field_inited_from(new: DataField, old: DataField) -> bool {
    &&& new.name == old.name
    &&& new.ty == old.ty
    &&& new.is_boxed == Some(opt_or(old.is_boxed, false))
    &&& new.is_optional == Some(opt_or(old.is_optional, false))
    &&& new.is_public == Some(opt_or(old.is_public, true))
    &&& new.metas is Some
    &&& (old.metas is Some ==> new.metas == old.metas)
    &&& (old.metas is None ==> new.metas.unwrap()@.len() == 0)
}

/// The type of a field: its data type, boxed and then made optional as asked.
pub open spec fn field_type_lit(f: DataField) -> Seq<char> {
    let t = data_ty_lit(f.ty);
    let t = if f.is_boxed == Some(true) { "Box<"@ + t + ">"@ } else { t };
    if f.is_optional == Some(true) { "Option<"@ + t + ">"@ } else { t }
}

/// The visibility of a field: public unless it says otherwise.
pub open spec fn pub_lit(is_public: Option<bool>) -> Seq<char> {
    if is_public == Some(false) { Seq::empty() } else { "pub "@ }
}

/// The field's name, or the empty text when unnamed.
pub open spec fn field_name(f: DataField) -> Seq<char> {
    match f.name {
        Some(n) => n@,
        None => Seq::empty(),
    }
}

/// The field's declaration at indentation `prefix`: its attributes, then
/// `pub name: type`; an unnamed field is its type alone.
pub open spec fn field_lit(f: DataField, prefix: Seq<char>) -> Seq<char> {
    match f.name {
        None => prefix + field_type_lit(f),
        Some(n) => metas_block(f.metas.unwrap()@, prefix) + "\n"@ + prefix + pub_lit(f.is_public)
            + n@ + ": "@ + field_type_lit(f),
    }
}

impl DataField {
    /// A field as written in a manifest, before `init`.
    pub fn new(
        name: Option<String>,
        ty: DataType,
        metas: Option<Vec<Meta>>,
        is_boxed: Option<bool>,
        is_optional: Option<bool>,
        is_public: Option<bool>,
    ) -> (f: DataField)
        ensures
            f == (DataField { name, ty, metas, is_boxed, is_optional, is_public }),
    {
        DataField { name, ty, metas, is_boxed, is_optional, is_public }
    }

    /// Every option is filled in.
    pub open spec fn inited(&self) -> bool {
        &&& self.metas is Some
        &&& self.is_boxed is Some
        &&& self.is_optional is Some
        &&& self.is_public is Some
    }

    /// Fills in the options left out: not boxed, not optional, public, no attributes.
    pub fn init(&mut self)
        ensures
            field_inited_from(*final(self), *old(self)),
            final(self).inited(),
    {
        if self.is_boxed.is_none() {
            self.is_boxed = Some(false);
        }
        if self.is_optional.is_none() {
            self.is_optional = Some(false);
        }
        if self.is_public.is_none() {
            self.is_public = Some(true);
        }
        if self.metas.is_none() {
            self.metas = Some(Vec::new())
        }
    }

    pub(crate) fn get_data_type_literal_prefixed(&self, prefix: &String) -> (r: String)
        requires
            self.is_boxed is Some,
            self.is_optional is Some,
        ensures
            r@ == prefix@ + field_type_lit(*self),
    {
        let ty_lit = data_ty_to_literal(&self.ty);
        let ty_lit = match self.is_boxed {
            Some(true) => wrap("Box<", ty_lit.as_str(), ">"),
            _ => ty_lit,
        };
        let ty_lit = match self.is_optional {
            Some(true) => wrap("Option<", ty_lit.as_str(), ">"),
            _ => ty_lit,
        };
        let mut r = prefix.clone();
        r.append(ty_lit.as_str());
        r
    }

    /// The field's type at indentation level `indent`.
    pub fn get_data_type_literal(&self, indent: usize) -> (r: String)
        requires
            self.is_boxed is Some,
            self.is_optional is Some,
        ensures
            r@ == indent_seq(indent as nat) + field_type_lit(*self),
    {
        let prefix = indent_literal(indent);
        self.get_data_type_literal_prefixed(&prefix)
    }

    pub(crate) fn get_metas_literal_prefixed(&self, prefix: &String) -> (r: Option<String>)
        requires
            self.metas is Some,
        ensures
            r is Some,
            r.unwrap()@ == metas_block(self.metas.unwrap()@, prefix@),
    {
        match &self.metas {
            Some(metas) => Some(metas_to_literal_prefixed(metas.as_slice(), prefix)),
            None => None,
        }
    }

    /// The field's attributes at indentation level `indent`, one per line.
    pub fn get_metas_literal(&self, indent: usize) -> (r: Option<String>)
        requires
            self.metas is Some,
        ensures
            r is Some,
            r.unwrap()@ == metas_block(self.metas.unwrap()@, indent_seq(indent as nat)),
    {
        let prefix = indent_literal(indent);
        self.get_metas_literal_prefixed(&prefix)
    }

    /// `pub ` unless the field is declared private.
    pub fn get_pub_literal(&self) -> (r: String)
        ensures
            r@ == pub_lit(self.is_public),
    {
        let is_public = match self.is_public {
            Some(is_public) => is_public,
            None => return String::from_str("pub "),
        };
        if is_public {
            String::from_str("pub ")
        } else {
            String::new()
        }
    }

    /// The field's name, type and attributes as shown in a description.
    pub fn display(&self) -> (r: (String, String, String))
        requires
            self.is_boxed is Some,
            self.is_optional is Some,
        ensures
            r.0@ == field_name(*self),
            r.1@ == field_type_lit(*self),
            r.2@ == (match self.metas {
                Some(ms) => metas_display(ms@),
                None => Seq::empty(),
            }),
    {
        let name_display = match &self.name {
            Some(name) => name.clone(),
            None => String::new(),
        };
        let type_display = self.get_data_type_literal(0);
        proof {
            assert(indent_seq(0) =~= Seq::<char>::empty());
            assert(type_display@ =~= field_type_lit(*self));
        }
        let metas_display = match &self.metas {
            Some(metas) => metas_to_display(metas.as_slice()),
            None => String::new(),
        };
        (name_display, type_display, metas_display)
    }

    pub(crate) fn to_literal_prefixed(&self, prefix: &String) -> (r: String)
        requires
            self.inited(),
        ensures
            r@ == field_lit(*self, prefix@),
    {
        let name = match &self.name {
            Some(name) => name,
            None => return self.get_data_type_literal_prefixed(prefix),
        };
        let metas_lit = self.get_metas_literal_prefixed(prefix);
        let pub_lit = self.get_pub_literal();
        let empty = String::new();
        let ty_lit = self.get_data_type_literal_prefixed(&empty);
        let mut literal = prefix.clone();
        literal.append(pub_lit.as_str());
        literal.append(name.as_str());
        literal.append(": ");
        literal.append(ty_lit.as_str());
        match metas_lit {
            None => literal,
            Some(metas_lit) => {
                let mut r = metas_lit;
                r.append("\n");
                r.append(literal.as_str());
                r
            },
        }
    }
}

/// The object types a field refers to.
pub open spec fn field_deps(f: DataField) -> Seq<Seq<char>> {
    match f.ty {
        DataType::Object(o) => seq![o@],
        _ => Seq::empty(),
    }
}

impl Entity for DataField {
    open spec fn entity_id(&self) -> Seq<char> {
        field_name(*self)
    }

    open spec fn entity_deps(&self) -> Seq<Seq<char>> {
        field_deps(*self)
    }

    open spec fn entity_deps_ready(&self) -> bool {
        true
    }

    open spec fn entity_ready(&self) -> bool {
        self.inited()
    }

    open spec fn entity_lit(&self, prefix: Seq<char>) -> Seq<char> {
        field_lit(*self, prefix)
    }

    fn get_id(&self) -> (r: String) {
        match &self.name {
            Some(name) => name.clone(),
            None => String::new(),
        }
    }

    fn list_dependency(&self) -> (r: Vec<String>) {
        let mut r: Vec<String> = Vec::new();
        if let DataType::Object(object) = &self.ty {
            r.push(object.clone());
        }
        assert(views(r@) =~= field_deps(*self));
        r
    }

    fn to_literal(&self, indent: usize) -> (r: String) {
        let prefix = indent_literal(indent);
        self.to_literal_prefixed(&prefix)
    }
}

/// A user-defined object type.
#[derive(Debug)]
pub struct Object {
    pub ty: String,
    pub metas: Option<Vec<Meta>>,
    pub fields: Vec<DataField>,
}

/// The object types the fields refer to, in field order.
pub open spec fn fields_deps(fs: Seq<DataField>) -> Seq<Seq<char>>
    decreases fs.len(),
{
    if fs.len() == 0 {
        Seq::empty()
    } else {
        fields_deps(fs.drop_last()) + field_deps(fs.last())
    }
}

/// The declarations of fields at indentation `prefix`.
pub open spec fn fields_lits(fs: Seq<DataField>, prefix: Seq<char>) -> Seq<Seq<char>> {
    fs.map_values(|f: DataField| field_lit(f, prefix))
}

/// An object's `pub struct` declaration at indentation `prefix`, after its attributes.
pub open spec fn object_lit(o: Object, prefix: Seq<char>) -> Seq<char> {
    metas_block(o.metas.unwrap()@, prefix) + "\n"@ + prefix + "pub struct "@ + o.ty@ + " {\n"@
        + join_seqs(fields_lits(o.fields@, prefix + indent_unit()), ",\n"@) + "\n"@ + prefix
        + "}"@
}

/// Every field of `o` is `init`-ed from the field at the same place of `fields`.
pub open spec fn fields_inited_from(new: Seq<DataField>, old: Seq<DataField>) -> bool {
    &&& new.len() == old.len()
    &&& forall|i: int| 0 <= i < new.len() ==> field_inited_from(#[trigger] new[i], old[i])
}

/// The number of UTF-8 bytes of a text.
pub open spec fn byte_len(s: Seq<char>) -> nat {
    (vstd::utf8::encode_utf8(s).len() as usize) as nat
}

/// `s` right-aligned in a column `width` characters wide.
pub open spec fn right_align(s: Seq<char>, width: nat) -> Seq<char> {
    if s.len() < width { repeat_seq(seq![' '], (width - s.len()) as nat) + s } else { s }
}

/// The rows of an object description: a header, then each field's name, type and attributes.
pub open spec fn object_rows(o: Object) -> Seq<(Seq<char>, Seq<char>, Seq<char>)> {
    seq![("Name"@, "Type"@, "Metas"@)] + o.fields@.map_values(
        |f: DataField|
            (
                field_name(f),
                field_type_lit(f),
                match f.metas {
                    Some(ms) => metas_display(ms@),
                    None => Seq::empty(),
                },
            ),
    )
}

/// The widest byte length in column `k` of the rows.
pub open spec fn column_width(rows: Seq<(Seq<char>, Seq<char>, Seq<char>)>, k: int) -> nat
    decreases rows.len(),
{
    if rows.len() == 0 {
        0
    } else {
        let r = rows.last();
        let w = byte_len(if k == 0 { r.0 } else if k == 1 { r.1 } else { r.2 });
        let rest = column_width(rows.drop_last(), k);
        if w > rest { w } else { rest }
    }
}

/// One row with each column right-aligned to its width.
pub open spec fn row_line(row: (Seq<char>, Seq<char>, Seq<char>), nw: nat, tw: nat, mw: nat) -> Seq<char> {
    right_align(row.0, nw) + " "@ + right_align(row.1, tw) + " "@ + right_align(row.2, mw) + "\n"@
}

/// The lines of all rows.
pub open spec fn rows_text(rows: Seq<(Seq<char>, Seq<char>, Seq<char>)>, nw: nat, tw: nat, mw: nat) -> Seq<char>
    decreases rows.len(),
{
    if rows.len() == 0 {
        Seq::empty()
    } else {
        rows_text(rows.drop_last(), nw, tw, mw) + row_line(rows.last(), nw, tw, mw)
    }
}

/// The description of an object: its type, its attributes when it has any
/// list of them, and a table of its fields.
pub open spec fn object_display(o: Object) -> Seq<char> {
    let rows = object_rows(o);
    "Type: "@ + o.ty@ + "\n"@ + (match o.metas {
        Some(ms) => "Type Metas: "@ + metas_display(ms@) + "\n"@,
        None => Seq::empty(),
    }) + "Fields:\n"@ + rows_text(rows, column_width(rows, 0), column_width(rows, 1), column_width(rows, 2))
}

fn right_aligned(s: &String, width: usize) -> (r: String)
    ensures
        r@ == right_align(s@, width as nat),
{
    let n = s.as_str().unicode_len();
    if n < width {
        let mut r = repeat_string(" ", width - n);
        proof {
            reveal_strlit(" ");
            assert(" "@ =~= seq![' ']);
        }
        r.append(s.as_str());
        r
    } else {
        s.clone()
    }
}

fn row_text(name: &String, ty: &String, metas: &String, nw: usize, tw: usize, mw: usize) -> (r: String)
    ensures
        r@ == row_line((name@, ty@, metas@), nw as nat, tw as nat, mw as nat),
{
    let a = right_aligned(name, nw);
    let b = right_aligned(ty, tw);
    let c = right_aligned(metas, mw);
    let mut r = a;
    r.append(" ");
    r.append(b.as_str());
    r.append(" ");
    r.append(c.as_str());
    r.append("\n");
    r
}

impl Object {
    /// An object with attributes `metas` and `init`-ed fields.
    pub fn new(ty: String, metas: Vec<Meta>, fields: Vec<DataField>) -> (o: Object)
        ensures
            o.ty == ty,
            o.metas == Some(metas),
            fields_inited_from(o.fields@, fields@),
    {
        let mut fields = fields;
        let ghost original = fields@;
        let mut i: usize = 0;
        while i < fields.len()
            invariant
                i <= fields.len(),
                fields.len() == original.len(),
                forall|j: int| 0 <= j < i ==> field_inited_from(#[trigger] fields@[j], original[j]),
                forall|j: int| i <= j < fields.len() ==> #[trigger] fields@[j] == original[j],
            decreases fields.len() - i,
        {
            let mut f = fields.remove(i);
            f.init();
            fields.insert(i, f);
            i = i + 1;
        }
        Object { ty, metas: Some(metas), fields }
    }

    /// The object has attributes and all its fields are `init`-ed.
    pub open spec fn inited(&self) -> bool {
        &&& self.metas is Some
        &&& forall|i: int| 0 <= i < self.fields.len() ==> (#[trigger] self.fields@[i]).inited()
    }

    /// Fills in the options left out, of the object and of each field.
    pub fn init(&mut self)
        ensures
            final(self).ty == old(self).ty,
            final(self).metas is Some,
            old(self).metas is Some ==> final(self).metas == old(self).metas,
            old(self).metas is None ==> final(self).metas.unwrap()@.len() == 0,
            fields_inited_from(final(self).fields@, old(self).fields@),
            final(self).inited(),
    {
        if self.metas.is_none() {
            self.metas = Some(Vec::new())
        }
        let ghost original = self.fields@;
        let mut i: usize = 0;
        while i < self.fields.len()
            invariant
                i <= self.fields.len(),
                self.fields.len() == original.len(),
                self.ty == old(self).ty,
                self.metas is Some,
                old(self).metas is Some ==> self.metas == old(self).metas,
                old(self).metas is None ==> self.metas.unwrap()@.len() == 0,
                original == old(self).fields@,
                forall|j: int| 0 <= j < i ==> field_inited_from(#[trigger] self.fields@[j], original[j]),
                forall|j: int| i <= j < self.fields.len() ==> #[trigger] self.fields@[j] == original[j],
            decreases self.fields.len() - i,
        {
            let mut f = self.fields.remove(i);
            f.init();
            self.fields.insert(i, f);
            i = i + 1;
        }
    }

    pub(crate) fn get_metas_literal_prefixed(&self, prefix: &String) -> (r: Option<String>)
        requires
            self.metas is Some,
        ensures
            r is Some,
            r.unwrap()@ == metas_block(self.metas.unwrap()@, prefix@),
    {
        match &self.metas {
            Some(metas) => Some(metas_to_literal_prefixed(metas.as_slice(), prefix)),
            None => None,
        }
    }

    /// The object's attributes at indentation level `indent`, one per line.
    pub fn get_metas_literal(&self, indent: usize) -> (r: Option<String>)
        requires
            self.metas is Some,
        ensures
            r is Some,
            r.unwrap()@ == metas_block(self.metas.unwrap()@, indent_seq(indent as nat)),
    {
        let prefix = indent_literal(indent);
        self.get_metas_literal_prefixed(&prefix)
    }

    /// The object's fields.
    pub fn get_fields(&self) -> (r: &Vec<DataField>)
        ensures
            *r == self.fields,
    {
        &self.fields
    }

    pub(crate) fn to_literal_prefixed(&self, prefix: &String) -> (r: String)
        requires
            self.inited(),
        ensures
            r@ == object_lit(*self, prefix@),
    {
        let mut nested = prefix.clone();
        nested.append("    ");
        proof {
            reveal_strlit("    ");
            assert(nested@ =~= prefix@ + indent_unit());
        }
        let mut field_lits: Vec<String> = Vec::new();
        let mut i: usize = 0;
        while i < self.fields.len()
            invariant
                i <= self.fields.len(),
                self.inited(),
                field_lits.len() == i,
                forall|j: int| 0 <= j < i ==> #[trigger] field_lits@[j]@ == field_lit(self.fields@[j], nested@),
            decreases self.fields.len() - i,
        {
            field_lits.push(self.fields[i].to_literal_prefixed(&nested));
            i = i + 1;
        }
        assert(views(field_lits@) =~= fields_lits(self.fields@, nested@));
        let field_lits = join(&field_lits, ",\n");
        let mut struct_lit = prefix.clone();
        struct_lit.append("pub struct ");
        struct_lit.append(self.ty.as_str());
        struct_lit.append(" {\n");
        struct_lit.append(field_lits.as_str());
        struct_lit.append("\n");
        struct_lit.append(prefix.as_str());
        struct_lit.append("}");
        let metas_lit = self.get_metas_literal_prefixed(prefix);
        let mut metas_lit = match metas_lit {
            None => return struct_lit,
            Some(metas_lit) => metas_lit,
        };
        metas_lit.append("\n");
        metas_lit.append(struct_lit.as_str());
        metas_lit
    }

    /// The description of the object: type, attributes and a table of fields.
    pub fn display(&self) -> (r: String)
        requires
            forall|i: int| 0 <= i < self.fields.len() ==> (#[trigger] self.fields@[i]).is_boxed is Some
                && self.fields@[i].is_optional is Some,
        ensures
            r@ == object_display(*self),
    {
        let ghost rows = object_rows(*self);
        let mut names: Vec<String> = Vec::new();
        let mut tys: Vec<String> = Vec::new();
        let mut metas: Vec<String> = Vec::new();
        names.push(String::from_str("Name"));
        tys.push(String::from_str("Type"));
        metas.push(String::from_str("Metas"));
        let mut i: usize = 0;
        while i < self.fields.len()
            invariant
                i <= self.fields.len(),
                rows == object_rows(*self),
                rows.len() == self.fields.len() + 1,
                forall|j: int| 0 <= j < self.fields.len() ==> (#[trigger] self.fields@[j]).is_boxed is Some
                    && self.fields@[j].is_optional is Some,
                names.len() == i + 1,
                tys.len() == i + 1,
                metas.len() == i + 1,
                forall|j: int| 0 <= j <= i ==> (#[trigger] names@[j])@ == rows[j].0 && tys@[j]@ == rows[j].1 && metas@[j]@ == rows[j].2,
            decreases self.fields.len() - i,
        {
            let (name, ty, meta) = self.fields[i].display();
            names.push(name);
            tys.push(ty);
            metas.push(meta);
            i = i + 1;
        }
        let mut name_width: usize = 0;
        let mut ty_width: usize = 0;
        let mut metas_width: usize = 0;
        let mut i: usize = 0;
        while i < names.len()
            invariant
                i <= names.len(),
                names.len() == rows.len(),
                tys.len() == rows.len(),
                metas.len() == rows.len(),
                forall|j: int| 0 <= j < rows.len() ==> (#[trigger] names@[j])@ == rows[j].0 && tys@[j]@ == rows[j].1 && metas@[j]@ == rows[j].2,
                name_width as nat == column_width(rows.subrange(0, i as int), 0),
                ty_width as nat == column_width(rows.subrange(0, i as int), 1),
                metas_width as nat == column_width(rows.subrange(0, i as int), 2),
            decreases names.len() - i,
        {
            let nl = names[i].as_str().len();
            let tl = tys[i].as_str().len();
            let ml = metas[i].as_str().len();
            if nl > name_width {
                name_width = nl;
            }
            if tl > ty_width {
                ty_width = tl;
            }
            if ml > metas_width {
                metas_width = ml;
            }
            proof {
                assert(rows.subrange(0, i + 1).drop_last() =~= rows.subrange(0, i as int));
                assert(rows[i as int] == rows.subrange(0, i + 1).last());
            }
            i = i + 1;
        }
        assert(rows.subrange(0, rows.len() as int) =~= rows);
        let mut r = String::from_str("Type: ");
        r.append(self.ty.as_str());
        r.append("\n");
        if let Some(ms) = &self.metas {
            let d = metas_to_display(ms.as_slice());
            r.append("Type Metas: ");
            r.append(d.as_str());
            r.append("\n");
        }
        r.append("Fields:\n");
        let ghost head = r@;
        let mut k: usize = 0;
        while k < names.len()
            invariant
                k <= names.len(),
                names.len() == rows.len(),
                tys.len() == rows.len(),
                metas.len() == rows.len(),
                forall|j: int| 0 <= j < rows.len() ==> (#[trigger] names@[j])@ == rows[j].0 && tys@[j]@ == rows[j].1 && metas@[j]@ == rows[j].2,
                r@ == head + rows_text(rows.subrange(0, k as int), name_width as nat, ty_width as nat, metas_width as nat),
            decreases names.len() - k,
        {
            let line = row_text(&names[k], &tys[k], &metas[k], name_width, ty_width, metas_width);
            let ghost r_old = r@;
            r.append(line.as_str());
            proof {
                assert(rows.subrange(0, k + 1).drop_last() =~= rows.subrange(0, k as int));
                assert(rows.subrange(0, k + 1).last() == rows[k as int]);
                assert(r@ =~= r_old + line@);
            }
            k = k + 1;
        }
        r
    }
}

impl Entity for Object {
    open spec fn entity_id(&self) -> Seq<char> {
        self.ty@
    }

    open spec fn entity_deps(&self) -> Seq<Seq<char>> {
        fields_deps(self.fields@)
    }

    open spec fn entity_deps_ready(&self) -> bool {
        true
    }

    open spec fn entity_ready(&self) -> bool {
        self.inited()
    }

    open spec fn entity_lit(&self, prefix: Seq<char>) -> Seq<char> {
        object_lit(*self, prefix)
    }

    fn get_id(&self) -> (r: String) {
        self.ty.clone()
    }

    fn list_dependency(&self) -> (r: Vec<String>) {
        let mut r: Vec<String> = Vec::new();
        let mut i: usize = 0;
        while i < self.fields.len()
            invariant
                i <= self.fields.len(),
                views(r@) == fields_deps(self.fields@.subrange(0, i as int)),
            decreases self.fields.len() - i,
        {
            let deps = self.fields[i].list_dependency();
            let ghost before = r@;
            let mut j: usize = 0;
            while j < deps.len()
                invariant
                    j <= deps.len(),
                    views(r@) == views(before) + views(deps@).subrange(0, j as int),
                decreases deps.len() - j,
            {
                let ghost r_old = r@;
                r.push(deps[j].clone());
                assert(views(r@) =~= views(r_old).push(deps@[j as int]@));
                assert(views(r@) =~= views(before) + views(deps@).subrange(0, j + 1));
                j = j + 1;
            }
            assert(views(deps@).subrange(0, deps.len() as int) =~= views(deps@));
            assert(self.fields@.subrange(0, i + 1).drop_last() =~= self.fields@.subrange(0, i as int));
            i = i + 1;
        }
        assert(self.fields@.subrange(0, self.fields.len() as int) =~= self.fields@);
        r
    }

    fn to_literal(&self, indent: usize) -> (r: String) {
        let prefix = indent_literal(indent);
        self.to_literal_prefixed(&prefix)
    }
}

} // verus!
