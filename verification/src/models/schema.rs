//! Plain structures: named fields of scalar or structure types, rendered as
//! Rust struct definitions.
use crate::models::{Entity, EntityAccept, VisitEntity};
use crate::text::{decimal, indent_literal, indent_unit, join, join_seqs, usize_to_string, views};
use vstd::prelude::*;

verus! {

/// The type of a field.
#[derive(Clone, Debug, PartialEq)]
pub enum FieldType {
    Boolean,
    Character,
    String,
    Byte,
    UnsignedByte,
    Short,
    UnsignedShort,
    Integer,
    UnsignedInteger,
    Size,
    UnsignedSize,
    Long,
    UnsignedLong,
    LongLong,
    UnsignedLongLong,
    Float,
    Double,
    /// A structure defined elsewhere, by name.
    Structure { name: String },
}

/// The name of a field type: the Rust type for the built-in ones, and
/// `Structure` for a structure.
pub open spec fn field_type_text(t: FieldType) -> Seq<char> {
    match t {
        FieldType::Boolean => "bool"@,
        FieldType::Character => "char"@,
        FieldType::String => "String"@,
        FieldType::Byte => "i8"@,
        FieldType::UnsignedByte => "u8"@,
        FieldType::Short => "i16"@,
        FieldType::UnsignedShort => "u16"@,
        FieldType::Integer => "i32"@,
        FieldType::UnsignedInteger => "u32"@,
        FieldType::Size => "isize"@,
        FieldType::UnsignedSize => "usize"@,
        FieldType::Long => "i64"@,
        FieldType::UnsignedLong => "u64"@,
        FieldType::LongLong => "i128"@,
        FieldType::UnsignedLongLong => "u128"@,
        FieldType::Float => "f32"@,
        FieldType::Double => "f64"@,
        FieldType::Structure { .. } => "Structure"@,
    }
}

impl FieldType {
    /// The type's name, see [`field_type_text`].
    pub fn to_string(&self) -> (r: String)
        ensures
            r@ == field_type_text(*self),
    {
        match self {
            FieldType::Boolean => String::from_str("bool"),
            FieldType::Character => String::from_str("char"),
            FieldType::String => String::from_str("String"),
            FieldType::Byte => String::from_str("i8"),
            FieldType::UnsignedByte => String::from_str("u8"),
            FieldType::Short => String::from_str("i16"),
            FieldType::UnsignedShort => String::from_str("u16"),
            FieldType::Integer => String::from_str("i32"),
            FieldType::UnsignedInteger => String::from_str("u32"),
            FieldType::Size => String::from_str("isize"),
            FieldType::UnsignedSize => String::from_str("usize"),
            FieldType::Long => String::from_str("i64"),
            FieldType::UnsignedLong => String::from_str("u64"),
            FieldType::LongLong => String::from_str("i128"),
            FieldType::UnsignedLongLong => String::from_str("u128"),
            FieldType::Float => String::from_str("f32"),
            FieldType::Double => String::from_str("f64"),
            FieldType::Structure { .. } => String::from_str("Structure"),
        }
    }
}

/// A named field of a structure.
#[derive(Clone, Debug)]
pub struct Field {
    pub name: String,
    pub ty: FieldType,
    pub is_optional: bool,
    /// The field holds several values: `size` of them in an array when it is
    /// given, else any number in a vector.
    pub is_scalar: bool,
    pub size: Option<usize>,
}

/// The Rust type of a field: the element type, in an array or vector when
/// the field holds several values, in an `Option` when it is optional.
pub open spec fn field_type_lit(f: Field) -> Seq<char> {
    let base = match f.ty {
        FieldType::Structure { name } => name@,
        t => field_type_text(t),
    };
    let many = if f.is_scalar {
        match f.size {
            Some(n) => "["@ + base + "; "@ + decimal(n as nat) + "]"@,
            None => "Vec<"@ + base + ">"@,
        }
    } else {
        base
    };
    if f.is_optional {
        "Option<"@ + many + ">"@
    } else {
        many
    }
}

/// A field's declaration at indentation `prefix`: `pub name: Type`.
pub open spec fn field_lit(f: Field, prefix: Seq<char>) -> Seq<char> {
    prefix + "pub "@ + f.name@ + ": "@ + field_type_lit(f)
}

/// The structure a field uses, if any.
pub open spec fn field_deps(f: Field) -> Seq<Seq<char>> {
    match f.ty {
        FieldType::Structure { name } => seq![name@],
        _ => Seq::empty(),
    }
}

impl Field {
    /// The field's Rust type, see [`field_type_lit`].
    pub fn get_type_literal(&self) -> (r: String)
        ensures
            r@ == field_type_lit(*self),
    {
        let base = match &self.ty {
            FieldType::Structure { name } => name.clone(),
            t => t.to_string(),
        };
        let many = if self.is_scalar {
            match self.size {
                Some(n) => {
                    let mut s = String::from_str("[");
                    s.append(base.as_str());
                    s.append("; ");
                    let d = usize_to_string(n);
                    s.append(d.as_str());
                    s.append("]");
                    s
                },
                None => {
                    let mut s = String::from_str("Vec<");
                    s.append(base.as_str());
                    s.append(">");
                    s
                },
            }
        } else {
            base
        };
        if self.is_optional {
            let mut s = String::from_str("Option<");
            s.append(many.as_str());
            s.append(">");
            s
        } else {
            many
        }
    }
}

impl Entity for Field {
    open spec fn entity_id(&self) -> Seq<char> {
        self.name@
    }

    open spec fn entity_deps(&self) -> Seq<Seq<char>> {
        field_deps(*self)
    }

    open spec fn entity_deps_ready(&self) -> bool {
        true
    }

    open spec fn entity_ready(&self) -> bool {
        true
    }

    open spec fn entity_lit(&self, prefix: Seq<char>) -> Seq<char> {
        field_lit(*self, prefix)
    }

    fn get_id(&self) -> (r: String) {
        self.name.clone()
    }

    fn list_dependency(&self) -> (r: Vec<String>) {
        let mut r: Vec<String> = Vec::new();
        match &self.ty {
            FieldType::Structure { name } => {
                r.push(name.clone());
            },
            _ => {},
        }
        assert(views(r@) =~= field_deps(*self));
        r
    }

    fn to_literal(&self, indent: usize) -> (r: String) {
        let prefix = indent_literal(indent);
        self.to_literal_prefixed(prefix.as_str())
    }
}

impl Field {
    /// The field's declaration at indentation `prefix`.
    pub fn to_literal_prefixed(&self, prefix: &str) -> (r: String)
        ensures
            r@ == field_lit(*self, prefix@),
    {
        let mut s = String::from_str(prefix);
        s.append("pub ");
        s.append(self.name.as_str());
        s.append(": ");
        let t = self.get_type_literal();
        s.append(t.as_str());
        s
    }
}

impl<V: VisitEntity<Field>> EntityAccept<V> for Field {}

/// A named structure of fields.
#[derive(Clone, Debug)]
pub struct Structure {
    pub name: String,
    pub fields: Vec<Field>,
}

/// The declarations of `fs`, each at indentation `prefix`.
pub open spec fn field_lits(fs: Seq<Field>, prefix: Seq<char>) -> Seq<Seq<char>> {
    fs.map_values(|f: Field| field_lit(f, prefix))
}

/// The structures that the fields use, in order.
pub open spec fn fields_struct_deps(fs: Seq<Field>) -> Seq<Seq<char>>
    decreases fs.len(),
{
    if fs.len() == 0 {
        Seq::empty()
    } else {
        fields_struct_deps(fs.drop_last()) + field_deps(fs.last())
    }
}

/// A structure's definition at indentation `prefix`: its fields one level
/// deeper, separated by `,` and a line break.
pub open spec fn structure_lit(s: Structure, prefix: Seq<char>) -> Seq<char> {
    prefix + "pub struct "@ + s.name@ + " {\n"@ + join_seqs(field_lits(s.fields@, prefix + indent_unit()), ",\n"@)
        + "\n"@ + prefix + "}"@
}

impl Entity for Structure {
    open spec fn entity_id(&self) -> Seq<char> {
        self.name@
    }

    open spec fn entity_deps(&self) -> Seq<Seq<char>> {
        fields_struct_deps(self.fields@)
    }

    open spec fn entity_deps_ready(&self) -> bool {
        true
    }

    open spec fn entity_ready(&self) -> bool {
        true
    }

    open spec fn entity_lit(&self, prefix: Seq<char>) -> Seq<char> {
        structure_lit(*self, prefix)
    }

    fn get_id(&self) -> (r: String) {
        self.name.clone()
    }

    fn list_dependency(&self) -> (r: Vec<String>) {
        let mut r: Vec<String> = Vec::new();
        let mut i: usize = 0;
        while i < self.fields.len()
            invariant
                i <= self.fields.len(),
                views(r@) == fields_struct_deps(self.fields@.take(i as int)),
            decreases self.fields.len() - i,
        {
            let ghost r0 = views(r@);
            match &self.fields[i].ty {
                FieldType::Structure { name } => {
                    r.push(name.clone());
                },
                _ => {},
            }
            assert(self.fields@.take(i + 1).drop_last() =~= self.fields@.take(i as int));
            assert(views(r@) =~= r0 + field_deps(self.fields@[i as int]));
            i = i + 1;
        }
        assert(self.fields@.take(self.fields.len() as int) =~= self.fields@);
        r
    }

    fn to_literal(&self, indent: usize) -> (r: String) {
        let prefix = indent_literal(indent);
        let mut inner_prefix = prefix.clone();
        inner_prefix.append("    ");
        proof {
            reveal_strlit("    ");
            assert(inner_prefix@ =~= prefix@ + indent_unit());
        }
        let ghost inner = inner_prefix@;
        let mut lits: Vec<String> = Vec::new();
        let mut i: usize = 0;
        while i < self.fields.len()
            invariant
                i <= self.fields.len(),
                inner == inner_prefix@,
                views(lits@) == field_lits(self.fields@.take(i as int), inner),
            decreases self.fields.len() - i,
        {
            let lit = self.fields[i].to_literal_prefixed(inner_prefix.as_str());
            let ghost l0 = views(lits@);
            lits.push(lit);
            assert(views(lits@) =~= l0.push(field_lit(self.fields@[i as int], inner)));
            assert(field_lits(self.fields@.take(i + 1), inner) =~= field_lits(self.fields@.take(i as int), inner).push(
                field_lit(self.fields@[i as int], inner),
            ));
            i = i + 1;
        }
        assert(self.fields@.take(self.fields.len() as int) =~= self.fields@);
        let body = join(&lits, ",\n");
        let mut s = String::new();
        s.append(prefix.as_str());
        s.append("pub struct ");
        s.append(self.name.as_str());
        s.append(" {\n");
        s.append(body.as_str());
        s.append("\n");
        s.append(prefix.as_str());
        s.append("}");
        s
    }
}

impl<V: VisitEntity<Structure>> EntityAccept<V> for Structure {}

} // verus!
