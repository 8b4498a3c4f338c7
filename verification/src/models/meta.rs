//! Attribute metadata of generated items, and its rendering as Rust attribute text.
use crate::text::{
    decimal, i32_to_string, indent_literal, indent_seq, indent_unit, join, join_seqs,
    signed_decimal, usize_to_string, views,
};
use vstd::prelude::*;

verus! {

/// Projection attribute: which input field feeds which output field.
#[derive(Clone, Debug, PartialEq)]
pub struct ProjectMeta {
    pub input: Option<String>,
    pub from: Option<String>,
    pub expr: Option<String>,
    pub alias: Option<String>,
}

/// Conversion attribute.
#[derive(Clone, Debug, PartialEq)]
pub struct ConvertMeta {
    pub input: Option<String>,
    pub from: Option<String>,
}

/// Filter attribute: a predicate expression and an optional alias.
#[derive(Clone, Debug, PartialEq)]
pub struct FilterMeta {
    pub predicate: String,
    pub alias: Option<String>,
}

/// Attribute naming a field when an object is turned into attributes.
#[derive(Clone, Debug, PartialEq)]
pub struct IntoAttributesMeta {
    pub alias: String,
}

/// Derivable behaviours of generated objects.
#[derive(Clone, Debug, PartialEq)]
pub enum DeriveMeta {
    Clone,
    Convert,
    Debug,
    Display,
    Serialize,
    Deserialize,
    Eq,
    Equal,
    PartialEq,
    Project,
    Filter,
    FieldAccept,
    HashedBy,
    OrderedBy,
    AggregateAs,
    GroupAs,
    LeftRight,
    Render,
    IntoAttributes,
}

/// Field tags.
#[derive(Clone, Debug, PartialEq)]
pub enum Tag {
    Hash,
    Group,
    Order,
    Visit,
    Equal,
    Left,
    Right,
}

/// Aggregation attribute.
#[derive(Clone, Debug, PartialEq)]
pub enum AggregateMeta {
    Top,
    Sum,
    Count32(Option<String>),
    Avgf32(Option<String>),
}

/// Render attribute: an optional template and position.
#[derive(Clone, Debug, PartialEq)]
pub struct RenderMeta {
    pub template: Option<String>,
    pub pos: Option<i32>,
}

/// The value of a `name = value` attribute.
#[derive(Clone, Debug, PartialEq)]
pub enum MetaValue {
    /// String literal, rendered as a raw string literal when `raw` holds.
    Str { value: String, raw: bool },
    Int { value: i32 },
    Usize { value: usize },
}

/// An attribute: the three base forms and the extended forms that expand into them.
#[derive(Debug)]
pub enum Meta {
    Value { name: String, meta: MetaValue },
    List { name: String, metas: Vec<Meta> },
    Path { name: String },
    Derive { derives: Vec<DeriveMeta> },
    Project { project: ProjectMeta },
    Filter { filter: FilterMeta },
    Aggregate { agg: AggregateMeta },
    Tag { tag: Tag },
    Render { render: RenderMeta },
    Convert { convert: ConvertMeta },
    IntoAttributes { attribute: IntoAttributesMeta },
}

/// A base attribute that has no nested attributes, as plain values.
pub ghost enum MetaLeaf {
    Path { name: Seq<char> },
    Str { name: Seq<char>, value: Seq<char>, raw: bool },
    Int { name: Seq<char>, value: int },
    Usize { name: Seq<char>, value: nat },
}

/// The leaf that a `Path` or `Value` attribute stands for.
pub open spec fn meta_leaf(m: Meta) -> Option<MetaLeaf> {
    match m {
        Meta::Path { name } => Some(MetaLeaf::Path { name: name@ }),
        Meta::Value { name, meta } => match meta {
            MetaValue::Str { value, raw } => Some(
                MetaLeaf::Str { name: name@, value: value@, raw: raw },
            ),
            MetaValue::Int { value } => Some(MetaLeaf::Int { name: name@, value: value as int }),
            MetaValue::Usize { value } => Some(
                MetaLeaf::Usize { name: name@, value: value as nat },
            ),
        },
        _ => None,
    }
}

/// `m` is a `List` attribute called `name` whose members are exactly `leaves`.
pub open spec fn is_leaf_list(m: Meta, name: Seq<char>, leaves: Seq<MetaLeaf>) -> bool {
    match m {
        Meta::List { name: n, metas } => {
            &&& n@ == name
            &&& metas.len() == leaves.len()
            &&& forall|i: int| 0 <= i < leaves.len() ==> meta_leaf(#[trigger] metas@[i]) == Some(leaves[i])
        },
        _ => false,
    }
}

/// The text of a leaf; `prefix` is the indentation, left out in compact form.
pub open spec fn leaf_lit(l: MetaLeaf, prefix: Seq<char>, compact: bool) -> Seq<char> {
    let body = match l {
        MetaLeaf::Path { name } => name,
        MetaLeaf::Str { name, value, raw } => if raw {
            name + " = r#\""@ + value + "\"#"@
        } else {
            name + " = \""@ + value + "\""@
        },
        MetaLeaf::Int { name, value } => name + " = "@ + signed_decimal(value),
        MetaLeaf::Usize { name, value } => name + " = "@ + decimal(value),
    };
    if compact {
        body
    } else {
        prefix + body
    }
}

/// The text of a list attribute, given the texts of its members.
pub open spec fn list_lit(
    name: Seq<char>,
    member_lits: Seq<Seq<char>>,
    prefix: Seq<char>,
    compact: bool,
) -> Seq<char> {
    let nested = join_seqs(member_lits, if compact { ","@ } else { ",\n"@ });
    let left = if compact { "("@ } else { "(\n"@ };
    let right = if compact { ")"@ } else { "\n"@ + prefix + ")"@ };
    let lit = name + left + nested + right;
    if compact {
        lit
    } else {
        prefix + lit
    }
}

/// The texts of leaves, each with the same prefix.
pub open spec fn leaves_lits(ls: Seq<MetaLeaf>, prefix: Seq<char>, compact: bool) -> Seq<Seq<char>> {
    ls.map_values(|l: MetaLeaf| leaf_lit(l, prefix, compact))
}

/// The attribute name a derive expands to.
pub open spec fn derive_name(d: DeriveMeta) -> Seq<char> {
    match d {
        DeriveMeta::Convert => "Convert"@,
        DeriveMeta::Clone => "Clone"@,
        DeriveMeta::Debug => "Debug"@,
        DeriveMeta::Display => "Display"@,
        DeriveMeta::Serialize => "Serialize"@,
        DeriveMeta::Deserialize => "Deserialize"@,
        DeriveMeta::Eq => "Eq"@,
        DeriveMeta::Equal => "Equal"@,
        DeriveMeta::PartialEq => "PartialEq"@,
        DeriveMeta::Project => "Project"@,
        DeriveMeta::Filter => "Filter"@,
        DeriveMeta::FieldAccept => "FieldAccept"@,
        DeriveMeta::HashedBy => "HashedBy"@,
        DeriveMeta::OrderedBy => "OrderedBy"@,
        DeriveMeta::AggregateAs => "AggregateAs"@,
        DeriveMeta::GroupAs => "GroupAs"@,
        DeriveMeta::LeftRight => "LeftRight"@,
        DeriveMeta::Render => "Render"@,
        DeriveMeta::IntoAttributes => "IntoAttributes"@,
    }
}

/// The path a tag expands to.
pub open spec fn tag_name(t: Tag) -> Seq<char> {
    match t {
        Tag::Hash => "hash"@,
        Tag::Group => "group"@,
        Tag::Order => "order"@,
        Tag::Visit => "visit"@,
        Tag::Equal => "equal"@,
        Tag::Left => "left"@,
        Tag::Right => "right"@,
    }
}

/// The `derive(..)` members.
pub open spec fn derive_leaves(ds: Seq<DeriveMeta>) -> Seq<MetaLeaf> {
    ds.map_values(|d: DeriveMeta| MetaLeaf::Path { name: derive_name(d) })
}

/// `s` with a string leaf `name = value` appended when `value` is present.
pub open spec fn push_opt_str(
    s: Seq<MetaLeaf>,
    name: Seq<char>,
    value: Option<String>,
    raw: bool,
) -> Seq<MetaLeaf> {
    match value {
        Some(v) => s.push(MetaLeaf::Str { name: name, value: v@, raw: raw }),
        None => s,
    }
}

/// The `project(..)` members: input, from, expr (raw), alias, each when present.
pub open spec fn project_leaves(p: ProjectMeta) -> Seq<MetaLeaf> {
    let s = push_opt_str(Seq::empty(), "input"@, p.input, false);
    let s = push_opt_str(s, "from"@, p.from, false);
    let s = push_opt_str(s, "expr"@, p.expr, true);
    push_opt_str(s, "alias"@, p.alias, false)
}

/// The `convert(..)` members: input and from, each when present.
pub open spec fn convert_leaves(c: ConvertMeta) -> Seq<MetaLeaf> {
    let s = push_opt_str(Seq::empty(), "input"@, c.input, false);
    push_opt_str(s, "from"@, c.from, false)
}

/// The `filter(..)` members: the predicate (raw), then the alias when present.
pub open spec fn filter_leaves(f: FilterMeta) -> Seq<MetaLeaf> {
    push_opt_str(
        seq![MetaLeaf::Str { name: "predicate"@, value: f.predicate@, raw: true }],
        "alias"@,
        f.alias,
        false,
    )
}

/// The `attribute(..)` member: the alias.
pub open spec fn into_attributes_leaves(a: IntoAttributesMeta) -> Seq<MetaLeaf> {
    seq![MetaLeaf::Str { name: "alias"@, value: a.alias@, raw: false }]
}

/// The `render(..)` members: template (raw) and position, each when present.
pub open spec fn render_leaves(r: RenderMeta) -> Seq<MetaLeaf> {
    let s = push_opt_str(Seq::empty(), "template"@, r.template, true);
    match r.pos {
        Some(p) => s.push(MetaLeaf::Int { name: "pos"@, value: p as int }),
        None => s,
    }
}

/// The single `agg(..)` member.
pub open spec fn aggregate_leaf(a: AggregateMeta) -> MetaLeaf {
    match a {
        AggregateMeta::Sum => MetaLeaf::Path { name: "sum"@ },
        AggregateMeta::Top => MetaLeaf::Path { name: "top"@ },
        AggregateMeta::Count32(ty) => match ty {
            Some(t) => MetaLeaf::Str { name: "count32"@, value: t@, raw: false },
            None => MetaLeaf::Path { name: "count32"@ },
        },
        AggregateMeta::Avgf32(ty) => match ty {
            Some(t) => MetaLeaf::Str { name: "avgf32"@, value: t@, raw: false },
            None => MetaLeaf::Path { name: "avgf32"@ },
        },
    }
}

/// The text of an attribute at indentation `prefix` (compact: on one line,
/// without indentation).
pub open spec fn meta_lit(m: Meta, prefix: Seq<char>, compact: bool) -> Seq<char>
    decreases m,
{
    let nested = prefix + indent_unit();
    match m {
        Meta::Path { name } => leaf_lit(MetaLeaf::Path { name: name@ }, prefix, compact),
        Meta::Value { name, meta } => leaf_lit(meta_leaf(m).unwrap(), prefix, compact),
        Meta::List { name, metas } => list_lit(
            name@,
            metas_lits(metas@, nested, compact),
            prefix,
            compact,
        ),
        Meta::Derive { derives } => list_lit(
            "derive"@,
            leaves_lits(derive_leaves(derives@), nested, compact),
            prefix,
            compact,
        ),
        Meta::Project { project } => list_lit(
            "project"@,
            leaves_lits(project_leaves(project), nested, compact),
            prefix,
            compact,
        ),
        Meta::Filter { filter } => list_lit(
            "filter"@,
            leaves_lits(filter_leaves(filter), nested, compact),
            prefix,
            compact,
        ),
        Meta::Aggregate { agg } => list_lit(
            "agg"@,
            leaves_lits(seq![aggregate_leaf(agg)], nested, compact),
            prefix,
            compact,
        ),
        Meta::Tag { tag } => leaf_lit(MetaLeaf::Path { name: tag_name(tag) }, prefix, compact),
        Meta::Render { render } => list_lit(
            "render"@,
            leaves_lits(render_leaves(render), nested, compact),
            prefix,
            compact,
        ),
        Meta::Convert { convert } => list_lit(
            "convert"@,
            leaves_lits(convert_leaves(convert), nested, compact),
            prefix,
            compact,
        ),
        Meta::IntoAttributes { attribute } => list_lit(
            "attribute"@,
            leaves_lits(into_attributes_leaves(attribute), nested, compact),
            prefix,
            compact,
        ),
    }
}

/// The texts of a sequence of attributes, each at the same indentation.
pub open spec fn metas_lits(ms: Seq<Meta>, prefix: Seq<char>, compact: bool) -> Seq<Seq<char>>
    decreases ms,
{
    if ms.len() == 0 {
        Seq::empty()
    } else {
        metas_lits(ms.drop_last(), prefix, compact).push(meta_lit(ms.last(), prefix, compact))
    }
}

/// An attribute as `#[..]` text at indentation `prefix`, members one level deeper.
pub open spec fn meta_attr(m: Meta, prefix: Seq<char>) -> Seq<char> {
    prefix + "#[\n"@ + meta_lit(m, prefix + indent_unit(), false) + "\n"@ + prefix + "]"@
}

/// The `#[..]` texts of a sequence of attributes.
pub open spec fn metas_attrs(ms: Seq<Meta>, prefix: Seq<char>) -> Seq<Seq<char>> {
    ms.map_values(|m: Meta| meta_attr(m, prefix))
}

/// Attributes as `#[..]` blocks, one per line.
pub open spec fn metas_block(ms: Seq<Meta>, prefix: Seq<char>) -> Seq<char> {
    join_seqs(metas_attrs(ms, prefix), "\n"@)
}

/// Attributes in compact form, separated by spaces.
pub open spec fn metas_display(ms: Seq<Meta>) -> Seq<char> {
    join_seqs(metas_lits(ms, Seq::empty(), true), " "@)
}

/// `metas_lits` is the element-wise text.
pub proof fn lemma_metas_lits(ms: Seq<Meta>, prefix: Seq<char>, compact: bool)
    ensures
        metas_lits(ms, prefix, compact).len() == ms.len(),
        forall|i: int|
            0 <= i < ms.len() ==> #[trigger] metas_lits(ms, prefix, compact)[i] == meta_lit(
                ms[i],
                prefix,
                compact,
            ),
    decreases ms.len(),
{
    if ms.len() > 0 {
        lemma_metas_lits(ms.drop_last(), prefix, compact);
    }
}

/// A `name = "value"` attribute (a raw string literal when `raw` holds).
pub fn meta_value_str(name: &str, value: &str, raw: bool) -> (m: Meta)
    ensures
        meta_leaf(m) == Some(MetaLeaf::Str { name: name@, value: value@, raw: raw }),
{
    Meta::Value {
        name: String::from_str(name),
        meta: MetaValue::Str { value: String::from_str(value), raw },
    }
}

/// A `name = value` attribute with an integer value.
pub fn meta_value_int(name: &str, value: &i32) -> (m: Meta)
    ensures
        meta_leaf(m) == Some(MetaLeaf::Int { name: name@, value: *value as int }),
{
    Meta::Value { name: String::from_str(name), meta: MetaValue::Int { value: *value } }
}

/// A `name = value` attribute with a `usize` value.
pub fn meta_value_usize(name: &str, value: &usize) -> (m: Meta)
    ensures
        meta_leaf(m) == Some(MetaLeaf::Usize { name: name@, value: *value as nat }),
{
    Meta::Value { name: String::from_str(name), meta: MetaValue::Usize { value: *value } }
}

/// A bare path attribute.
pub fn new_path(name: String) -> (m: Meta)
    ensures
        meta_leaf(m) == Some(MetaLeaf::Path { name: name@ }),
{
    Meta::Path { name }
}

fn path_of(name: &str) -> (m: Meta)
    ensures
        meta_leaf(m) == Some(MetaLeaf::Path { name: name@ }),
{
    new_path(String::from_str(name))
}

/// The path attribute of one derive.
pub fn expand_derive(derive: &DeriveMeta) -> (m: Meta)
    ensures
        meta_leaf(m) == Some(MetaLeaf::Path { name: derive_name(*derive) }),
{
    let name = match derive {
        DeriveMeta::Convert => "Convert",
        DeriveMeta::Clone => "Clone",
        DeriveMeta::Debug => "Debug",
        DeriveMeta::Display => "Display",
        DeriveMeta::Serialize => "Serialize",
        DeriveMeta::Deserialize => "Deserialize",
        DeriveMeta::Eq => "Eq",
        DeriveMeta::Equal => "Equal",
        DeriveMeta::PartialEq => "PartialEq",
        DeriveMeta::Project => "Project",
        DeriveMeta::Filter => "Filter",
        DeriveMeta::FieldAccept => "FieldAccept",
        DeriveMeta::HashedBy => "HashedBy",
        DeriveMeta::OrderedBy => "OrderedBy",
        DeriveMeta::AggregateAs => "AggregateAs",
        DeriveMeta::GroupAs => "GroupAs",
        DeriveMeta::LeftRight => "LeftRight",
        DeriveMeta::Render => "Render",
        DeriveMeta::IntoAttributes => "IntoAttributes",
    };
    path_of(name)
}

/// `derive(..)` listing each derive in order.
pub fn expand_derives(derives: &[DeriveMeta]) -> (m: Meta)
    ensures
        is_leaf_list(m, "derive"@, derive_leaves(derives@)),
{
    let mut metas: Vec<Meta> = Vec::new();
    let mut i: usize = 0;
    while i < derives.len()
        invariant
            i <= derives.len(),
            metas.len() == i,
            forall|j: int|
                0 <= j < i ==> meta_leaf(#[trigger] metas@[j]) == Some(
                    derive_leaves(derives@)[j],
                ),
        decreases derives.len() - i,
    {
        metas.push(expand_derive(&derives[i]));
        i = i + 1;
    }
    Meta::List { name: String::from_str("derive"), metas }
}

fn push_opt_str_meta(metas: &mut Vec<Meta>, name: &str, value: &Option<String>, raw: bool)
    requires
        forall|j: int| 0 <= j < old(metas).len() ==> meta_leaf(#[trigger] old(metas)@[j]) is Some,
    ensures
        final(metas).len() == push_opt_str(leaves_of(old(metas)@), name@, *value, raw).len(),
        leaves_of(final(metas)@) == push_opt_str(leaves_of(old(metas)@), name@, *value, raw),
        forall|j: int| 0 <= j < final(metas).len() ==> meta_leaf(#[trigger] final(metas)@[j]) is Some,
{
    if let Some(v) = value {
        metas.push(meta_value_str(name, v.as_str(), raw));
        assert(leaves_of(metas@) =~= leaves_of(old(metas)@).push(
            MetaLeaf::Str { name: name@, value: v@, raw: raw },
        ));
    }
}

/// The leaves of base attributes.
pub open spec fn leaves_of(ms: Seq<Meta>) -> Seq<MetaLeaf> {
    ms.map_values(|m: Meta| meta_leaf(m).unwrap())
}

/// `leaves_of` pins the members of a list attribute.
proof fn lemma_leaf_list(name: String, metas: Vec<Meta>, leaves: Seq<MetaLeaf>)
    requires
        forall|j: int| 0 <= j < metas.len() ==> meta_leaf(#[trigger] metas@[j]) is Some,
        leaves_of(metas@) == leaves,
    ensures
        is_leaf_list(Meta::List { name, metas }, name@, leaves),
{
    assert forall|i: int| 0 <= i < leaves.len() implies meta_leaf(#[trigger] metas@[i]) == Some(
        leaves[i],
    ) by {
        assert(leaves_of(metas@)[i] == meta_leaf(metas@[i]).unwrap());
    }
}

/// `project(..)` with the present fields.
pub fn expand_project_meta(meta: &ProjectMeta) -> (m: Meta)
    ensures
        is_leaf_list(m, "project"@, project_leaves(*meta)),
{
    let mut metas: Vec<Meta> = Vec::new();
    assert(leaves_of(metas@) =~= Seq::<MetaLeaf>::empty());
    push_opt_str_meta(&mut metas, "input", &meta.input, false);
    push_opt_str_meta(&mut metas, "from", &meta.from, false);
    push_opt_str_meta(&mut metas, "expr", &meta.expr, true);
    push_opt_str_meta(&mut metas, "alias", &meta.alias, false);
    let name = String::from_str("project");
    proof {
        lemma_leaf_list(name, metas, project_leaves(*meta));
    }
    Meta::List { name, metas }
}

/// `convert(..)` with the present fields.
pub fn expand_convert_meta(meta: &ConvertMeta) -> (m: Meta)
    ensures
        is_leaf_list(m, "convert"@, convert_leaves(*meta)),
{
    let mut metas: Vec<Meta> = Vec::new();
    assert(leaves_of(metas@) =~= Seq::<MetaLeaf>::empty());
    push_opt_str_meta(&mut metas, "input", &meta.input, false);
    push_opt_str_meta(&mut metas, "from", &meta.from, false);
    let name = String::from_str("convert");
    proof {
        lemma_leaf_list(name, metas, convert_leaves(*meta));
    }
    Meta::List { name, metas }
}

/// `filter(..)`: the predicate, then the alias when present.
pub fn expand_filter_meta(meta: &FilterMeta) -> (m: Meta)
    ensures
        is_leaf_list(m, "filter"@, filter_leaves(*meta)),
{
    let mut metas: Vec<Meta> = Vec::new();
    metas.push(meta_value_str("predicate", meta.predicate.as_str(), true));
    assert(leaves_of(metas@) =~= seq![
        MetaLeaf::Str { name: "predicate"@, value: meta.predicate@, raw: true },
    ]);
    push_opt_str_meta(&mut metas, "alias", &meta.alias, false);
    let name = String::from_str("filter");
    proof {
        lemma_leaf_list(name, metas, filter_leaves(*meta));
    }
    Meta::List { name, metas }
}

/// `attribute(alias = ..)`.
pub fn expand_into_attributes_meta(meta: &IntoAttributesMeta) -> (m: Meta)
    ensures
        is_leaf_list(m, "attribute"@, into_attributes_leaves(*meta)),
{
    let mut metas: Vec<Meta> = Vec::new();
    metas.push(meta_value_str("alias", meta.alias.as_str(), false));
    let name = String::from_str("attribute");
    proof {
        assert(leaves_of(metas@) =~= into_attributes_leaves(*meta));
        lemma_leaf_list(name, metas, into_attributes_leaves(*meta));
    }
    Meta::List { name, metas }
}

/// The path of a tag.
pub fn expand_tag(tag: &Tag) -> (m: Meta)
    ensures
        meta_leaf(m) == Some(MetaLeaf::Path { name: tag_name(*tag) }),
{
    match tag {
        Tag::Hash => path_of("hash"),
        Tag::Group => path_of("group"),
        Tag::Order => path_of("order"),
        Tag::Visit => path_of("visit"),
        Tag::Equal => path_of("equal"),
        Tag::Left => path_of("left"),
        Tag::Right => path_of("right"),
    }
}

/// `avgf32 = "ty"`, or the bare path without a type.
pub fn expand_avgf32(avgf32_ty: Option<String>) -> (m: Meta)
    ensures
        meta_leaf(m) == Some(aggregate_leaf(AggregateMeta::Avgf32(avgf32_ty))),
{
    match avgf32_ty {
        Some(ty) => meta_value_str("avgf32", ty.as_str(), false),
        None => path_of("avgf32"),
    }
}

/// `count32 = "ty"`, or the bare path without a type.
pub fn expand_count32(count32_ty: Option<String>) -> (m: Meta)
    ensures
        meta_leaf(m) == Some(aggregate_leaf(AggregateMeta::Count32(count32_ty))),
{
    match count32_ty {
        Some(ty) => meta_value_str("count32", ty.as_str(), false),
        None => path_of("count32"),
    }
}

/// The `sum` path.
pub fn expand_sum() -> (m: Meta)
    ensures
        meta_leaf(m) == Some(aggregate_leaf(AggregateMeta::Sum)),
{
    path_of("sum")
}

/// The `top` path.
pub fn expand_top() -> (m: Meta)
    ensures
        meta_leaf(m) == Some(aggregate_leaf(AggregateMeta::Top)),
{
    path_of("top")
}

fn copy_opt_string(s: &Option<String>) -> (r: Option<String>)
    ensures
        r == *s,
{
    match s {
        Some(v) => Some(v.clone()),
        None => None,
    }
}

/// `agg(..)` holding the aggregation's single member.
pub fn expand_aggregate(agg: &AggregateMeta) -> (m: Meta)
    ensures
        is_leaf_list(m, "agg"@, seq![aggregate_leaf(*agg)]),
{
    let meta = match agg {
        AggregateMeta::Sum => expand_sum(),
        AggregateMeta::Top => expand_top(),
        AggregateMeta::Count32(ty) => expand_count32(copy_opt_string(ty)),
        AggregateMeta::Avgf32(ty) => expand_avgf32(copy_opt_string(ty)),
    };
    let mut metas: Vec<Meta> = Vec::new();
    metas.push(meta);
    let name = String::from_str("agg");
    proof {
        assert(leaves_of(metas@) =~= seq![aggregate_leaf(*agg)]);
        lemma_leaf_list(name, metas, seq![aggregate_leaf(*agg)]);
    }
    Meta::List { name, metas }
}

/// `render(..)` with the present template and position.
pub fn expand_render(render: &RenderMeta) -> (m: Meta)
    ensures
        is_leaf_list(m, "render"@, render_leaves(*render)),
{
    let mut metas: Vec<Meta> = Vec::new();
    assert(leaves_of(metas@) =~= Seq::<MetaLeaf>::empty());
    push_opt_str_meta(&mut metas, "template", &render.template, true);
    if let Some(pos) = &render.pos {
        let ghost before = leaves_of(metas@);
        metas.push(meta_value_int("pos", pos));
        assert(leaves_of(metas@) =~= before.push(MetaLeaf::Int { name: "pos"@, value: *pos as int }));
    }
    let name = String::from_str("render");
    proof {
        lemma_leaf_list(name, metas, render_leaves(*render));
    }
    Meta::List { name, metas }
}

fn with_prefix(lit: String, prefix: &String, compact: bool) -> (r: String)
    ensures
        r@ == (if compact { lit@ } else { prefix@ + lit@ }),
{
    if compact {
        lit
    } else {
        let mut r = prefix.clone();
        r.append(lit.as_str());
        r
    }
}

/// A path attribute's text.
fn meta_path_to_lit(name: &str, prefix: &String, compact: bool) -> (r: String)
    ensures
        r@ == leaf_lit(MetaLeaf::Path { name: name@ }, prefix@, compact),
{
    with_prefix(String::from_str(name), prefix, compact)
}

/// A string attribute's text: `name = "value"`, or `name = r#"value"#` when raw.
fn meta_str_value_to_lit(name: &str, value: &str, raw: &bool, prefix: &String, compact: bool) -> (r: String)
    ensures
        r@ == leaf_lit(MetaLeaf::Str { name: name@, value: value@, raw: *raw }, prefix@, compact),
{
    let mut lit = String::from_str(name);
    if *raw {
        lit.append(" = r#\"");
        lit.append(value);
        lit.append("\"#");
    } else {
        lit.append(" = \"");
        lit.append(value);
        lit.append("\"");
    }
    with_prefix(lit, prefix, compact)
}

/// An integer attribute's text: `name = value`.
fn meta_int_value_to_lit(name: &str, value: &i32, prefix: &String, compact: bool) -> (r: String)
    ensures
        r@ == leaf_lit(MetaLeaf::Int { name: name@, value: *value as int }, prefix@, compact),
{
    let mut lit = String::from_str(name);
    lit.append(" = ");
    let v = i32_to_string(*value);
    lit.append(v.as_str());
    with_prefix(lit, prefix, compact)
}

/// A `usize` attribute's text: `name = value`.
fn meta_usize_value_to_lit(name: &str, value: &usize, prefix: &String, compact: bool) -> (r: String)
    ensures
        r@ == leaf_lit(MetaLeaf::Usize { name: name@, value: *value as nat }, prefix@, compact),
{
    let mut lit = String::from_str(name);
    lit.append(" = ");
    let v = usize_to_string(*value);
    lit.append(v.as_str());
    with_prefix(lit, prefix, compact)
}

/// The text of a base attribute that has no members.
fn leaf_meta_lit(meta: &Meta, prefix: &String, compact: bool) -> (r: String)
    requires
        meta_leaf(*meta) is Some,
    ensures
        r@ == leaf_lit(meta_leaf(*meta).unwrap(), prefix@, compact),
{
    match meta {
        Meta::Path { name } => meta_path_to_lit(name.as_str(), prefix, compact),
        Meta::Value { name, meta } => match meta {
            MetaValue::Str { value, raw } => meta_str_value_to_lit(
                name.as_str(),
                value.as_str(),
                raw,
                prefix,
                compact,
            ),
            MetaValue::Int { value } => meta_int_value_to_lit(name.as_str(), value, prefix, compact),
            MetaValue::Usize { value } => meta_usize_value_to_lit(
                name.as_str(),
                value,
                prefix,
                compact,
            ),
        },
        _ => String::new(),
    }
}

/// `(` or `(` and a line break.
fn get_left_parenthesis(compact: bool) -> (r: String)
    ensures
        r@ == (if compact { "("@ } else { "(\n"@ }),
{
    if compact {
        String::from_str("(")
    } else {
        String::from_str("(\n")
    }
}

/// `)` or a line break, the indentation and `)`.
fn get_right_parenthesis(compact: bool, prefix: &String) -> (r: String)
    ensures
        r@ == (if compact { ")"@ } else { "\n"@ + prefix@ + ")"@ }),
{
    if compact {
        String::from_str(")")
    } else {
        let mut r = String::from_str("\n");
        r.append(prefix.as_str());
        r.append(")");
        r
    }
}

/// Member texts joined by `,` (compact) or `,` and a line break.
fn join_meta_lits(meta_lits: Vec<String>, compact: bool) -> (r: String)
    ensures
        r@ == join_seqs(views(meta_lits@), if compact { ","@ } else { ",\n"@ }),
{
    if compact {
        join(&meta_lits, ",")
    } else {
        join(&meta_lits, ",\n")
    }
}

/// The text of a list attribute from its name and member texts.
fn list_meta_lit(name: &str, nested_lits: Vec<String>, prefix: &String, compact: bool) -> (r: String)
    ensures
        r@ == list_lit(name@, views(nested_lits@), prefix@, compact),
{
    let nested = join_meta_lits(nested_lits, compact);
    let left = get_left_parenthesis(compact);
    let right = get_right_parenthesis(compact, prefix);
    let mut lit = String::from_str(name);
    lit.append(left.as_str());
    lit.append(nested.as_str());
    lit.append(right.as_str());
    with_prefix(lit, prefix, compact)
}

/// The text of a list attribute whose members are all leaves.
fn leaf_list_lit(meta: &Meta, Ghost(name): Ghost<Seq<char>>, Ghost(leaves): Ghost<Seq<MetaLeaf>>, prefix: &String, compact: bool) -> (r: String)
    requires
        is_leaf_list(*meta, name, leaves),
    ensures
        r@ == list_lit(name, leaves_lits(leaves, prefix@ + indent_unit(), compact), prefix@, compact),
{
    match meta {
        Meta::List { name: n, metas } => {
            let mut nested_prefix = prefix.clone();
            nested_prefix.append("    ");
            proof {
                reveal_strlit("    ");
                assert(nested_prefix@ =~= prefix@ + indent_unit());
            }
            let mut lits: Vec<String> = Vec::new();
            let mut i: usize = 0;
            while i < metas.len()
                invariant
                    i <= metas.len(),
                    metas.len() == leaves.len(),
                    forall|j: int| 0 <= j < leaves.len() ==> meta_leaf(#[trigger] metas@[j]) == Some(leaves[j]),
                    nested_prefix@ == prefix@ + indent_unit(),
                    lits.len() == i,
                    forall|j: int| 0 <= j < i ==> #[trigger] lits@[j]@ == leaf_lit(leaves[j], nested_prefix@, compact),
                decreases metas.len() - i,
            {
                let lit = leaf_meta_lit(&metas[i], &nested_prefix, compact);
                lits.push(lit);
                i = i + 1;
            }
            assert(views(lits@) =~= leaves_lits(leaves, nested_prefix@, compact));
            list_meta_lit(n.as_str(), lits, prefix, compact)
        },
        _ => String::new(),
    }
}

/// The text of an attribute at indentation `prefix`; compact text is on one
/// line without indentation.
fn expand_meta_lit(meta: &Meta, prefix: &String, compact: bool) -> (r: String)
    ensures
        r@ == meta_lit(*meta, prefix@, compact),
    decreases meta,
{
    match meta {
        Meta::Path { .. } => leaf_meta_lit(meta, prefix, compact),
        Meta::Value { .. } => leaf_meta_lit(meta, prefix, compact),
        Meta::Derive { derives } => {
            let m = expand_derives(derives.as_slice());
            leaf_list_lit(&m, Ghost("derive"@), Ghost(derive_leaves(derives@)), prefix, compact)
        },
        Meta::Project { project } => {
            let m = expand_project_meta(project);
            leaf_list_lit(&m, Ghost("project"@), Ghost(project_leaves(*project)), prefix, compact)
        },
        Meta::Filter { filter } => {
            let m = expand_filter_meta(filter);
            leaf_list_lit(&m, Ghost("filter"@), Ghost(filter_leaves(*filter)), prefix, compact)
        },
        Meta::Aggregate { agg } => {
            let m = expand_aggregate(agg);
            leaf_list_lit(&m, Ghost("agg"@), Ghost(Seq::empty().push(aggregate_leaf(*agg))), prefix, compact)
        },
        Meta::Tag { tag } => {
            let m = expand_tag(tag);
            leaf_meta_lit(&m, prefix, compact)
        },
        Meta::Render { render } => {
            let m = expand_render(render);
            leaf_list_lit(&m, Ghost("render"@), Ghost(render_leaves(*render)), prefix, compact)
        },
        Meta::Convert { convert } => {
            let m = expand_convert_meta(convert);
            leaf_list_lit(&m, Ghost("convert"@), Ghost(convert_leaves(*convert)), prefix, compact)
        },
        Meta::IntoAttributes { attribute } => {
            let m = expand_into_attributes_meta(attribute);
            leaf_list_lit(
                &m,
                Ghost("attribute"@),
                Ghost(into_attributes_leaves(*attribute)),
                prefix,
                compact,
            )
        },
        Meta::List { name, metas } => {
            let mut nested_prefix = prefix.clone();
            nested_prefix.append("    ");
            proof {
                reveal_strlit("    ");
                assert(nested_prefix@ =~= prefix@ + indent_unit());
                lemma_metas_lits(metas@, nested_prefix@, compact);
            }
            let mut lits: Vec<String> = Vec::new();
            let mut i: usize = 0;
            #[verifier::loop_isolation(false)]
            while i < metas.len()
                invariant
                    i <= metas.len(),
                    nested_prefix@ == prefix@ + indent_unit(),
                    metas_lits(metas@, nested_prefix@, compact).len() == metas@.len(),
                    forall|j: int| 0 <= j < metas@.len() ==> #[trigger] metas_lits(metas@, nested_prefix@, compact)[j] == meta_lit(metas@[j], nested_prefix@, compact),
                    lits.len() == i,
                    forall|j: int| 0 <= j < i ==> #[trigger] lits@[j]@ == meta_lit(metas@[j], nested_prefix@, compact),
                decreases metas.len() - i,
            {
                proof {
                    assert(*metas == (*meta)->metas);
                    assert(decreases_to!(*meta => (*meta)->metas));
                    assert(decreases_to!(*metas => metas@));
                    assert(decreases_to!(metas@ => metas@[i as int]));
                    assert(decreases_to!(*meta => metas@[i as int]));
                }
                let lit = expand_meta_lit(&metas[i], &nested_prefix, compact);
                lits.push(lit);
                i = i + 1;
            }
            assert(views(lits@) =~= metas_lits(metas@, nested_prefix@, compact));
            list_meta_lit(name.as_str(), lits, prefix, compact)
        },
    }
}

/// An attribute as `#[..]` text at indentation `prefix`.
pub(crate) fn meta_to_literal_prefixed(meta: &Meta, prefix: &String) -> (r: String)
    ensures
        r@ == meta_attr(*meta, prefix@),
{
    let mut nested_prefix = prefix.clone();
    nested_prefix.append("    ");
    proof {
        reveal_strlit("    ");
        assert(nested_prefix@ =~= prefix@ + indent_unit());
    }
    let meta_lit = expand_meta_lit(meta, &nested_prefix, false);
    let mut r = prefix.clone();
    r.append("#[\n");
    r.append(meta_lit.as_str());
    r.append("\n");
    r.append(prefix.as_str());
    r.append("]");
    r
}

/// An attribute as `#[..]` text at indentation level `indent`.
pub fn meta_to_literal(meta: &Meta, indent: usize) -> (r: String)
    ensures
        r@ == meta_attr(*meta, indent_seq(indent as nat)),
{
    let prefix = indent_literal(indent);
    meta_to_literal_prefixed(meta, &prefix)
}

/// Attributes as `#[..]` blocks at indentation `prefix`, one per line.
pub(crate) fn metas_to_literal_prefixed(metas: &[Meta], prefix: &String) -> (r: String)
    ensures
        r@ == metas_block(metas@, prefix@),
{
    let mut lits: Vec<String> = Vec::new();
    let mut i: usize = 0;
    while i < metas.len()
        invariant
            i <= metas.len(),
            lits.len() == i,
            forall|j: int| 0 <= j < i ==> #[trigger] lits@[j]@ == meta_attr(metas@[j], prefix@),
        decreases metas.len() - i,
    {
        lits.push(meta_to_literal_prefixed(&metas[i], prefix));
        i = i + 1;
    }
    assert(views(lits@) =~= metas_attrs(metas@, prefix@));
    join(&lits, "\n")
}

/// Attributes as `#[..]` blocks at indentation level `indent`, one per line.
pub fn metas_to_literal(metas: &[Meta], indent: usize) -> (r: String)
    ensures
        r@ == metas_block(metas@, indent_seq(indent as nat)),
{
    let prefix = indent_literal(indent);
    metas_to_literal_prefixed(metas, &prefix)
}

/// An attribute in compact form.
pub fn meta_to_display(meta: &Meta) -> (r: String)
    ensures
        r@ == meta_lit(*meta, Seq::empty(), true),
{
    let prefix = String::new();
    expand_meta_lit(meta, &prefix, true)
}

/// Attributes in compact form separated by spaces.
pub fn metas_to_display(metas: &[Meta]) -> (r: String)
    ensures
        r@ == metas_display(metas@),
{
    proof {
        lemma_metas_lits(metas@, Seq::empty(), true);
    }
    let mut lits: Vec<String> = Vec::new();
    let mut i: usize = 0;
    while i < metas.len()
        invariant
            i <= metas.len(),
            metas_lits(metas@, Seq::empty(), true).len() == metas@.len(),
            forall|j: int| 0 <= j < metas@.len() ==> #[trigger] metas_lits(metas@, Seq::empty(), true)[j] == meta_lit(metas@[j], Seq::empty(), true),
            lits.len() == i,
            forall|j: int| 0 <= j < i ==> #[trigger] lits@[j]@ == meta_lit(metas@[j], Seq::empty(), true),
        decreases metas.len() - i,
    {
        lits.push(meta_to_display(&metas[i]));
        i = i + 1;
    }
    assert(views(lits@) =~= metas_lits(metas@, Seq::empty(), true));
    join(&lits, " ")
}


/// An attribute that is a leaf or a list of leaves, as plain values.
pub ghost enum MetaShape {
    Leaf(MetaLeaf),
    LeafList(Seq<char>, Seq<MetaLeaf>),
}

/// The text of an attribute of that shape.
pub open spec fn shape_lit(s: MetaShape, prefix: Seq<char>, compact: bool) -> Seq<char> {
    match s {
        MetaShape::Leaf(l) => leaf_lit(l, prefix, compact),
        MetaShape::LeafList(name, ls) => list_lit(name, leaves_lits(ls, prefix + indent_unit(), compact), prefix, compact),
    }
}

/// The texts of attributes of these shapes.
pub open spec fn shapes_lits(ss: Seq<MetaShape>, prefix: Seq<char>, compact: bool) -> Seq<Seq<char>> {
    ss.map_values(|s: MetaShape| shape_lit(s, prefix, compact))
}

/// `m` has shape `s`.
pub open spec fn has_shape(m: Meta, s: MetaShape) -> bool {
    match s {
        MetaShape::Leaf(l) => meta_leaf(m) == Some(l),
        MetaShape::LeafList(name, ls) => is_leaf_list(m, name, ls),
    }
}

/// `m` is a list called `name` whose members have the shapes `shapes`.
pub open spec fn is_shape_list(m: Meta, name: Seq<char>, shapes: Seq<MetaShape>) -> bool {
    match m {
        Meta::List { name: n, metas } => {
            &&& n@ == name
            &&& metas.len() == shapes.len()
            &&& forall|i: int| 0 <= i < shapes.len() ==> has_shape(#[trigger] metas@[i], shapes[i])
        },
        _ => false,
    }
}

/// The `#[..]` text of a list attribute with members of these shapes.
pub open spec fn shape_list_attr(name: Seq<char>, shapes: Seq<MetaShape>, prefix: Seq<char>) -> Seq<char> {
    prefix + "#[\n"@ + list_lit(
        name,
        shapes_lits(shapes, prefix + indent_unit() + indent_unit(), false),
        prefix + indent_unit(),
        false,
    ) + "\n"@ + prefix + "]"@
}

/// The text of a list of leaves.
pub proof fn lemma_leaf_list_lit(m: Meta, name: Seq<char>, leaves: Seq<MetaLeaf>, prefix: Seq<char>, compact: bool)
    requires
        is_leaf_list(m, name, leaves),
    ensures
        meta_lit(m, prefix, compact) == list_lit(name, leaves_lits(leaves, prefix + indent_unit(), compact), prefix, compact),
{
    match m {
        Meta::List { name: n, metas } => {
            let nested = prefix + indent_unit();
            lemma_metas_lits(metas@, nested, compact);
            assert forall|i: int| 0 <= i < metas@.len() implies meta_lit(#[trigger] metas@[i], nested, compact) == leaf_lit(leaves[i], nested, compact) by {
                match metas@[i] {
                    Meta::Path { .. } => {},
                    Meta::Value { .. } => {},
                    _ => {},
                }
            }
            assert(metas_lits(metas@, nested, compact) =~= leaves_lits(leaves, nested, compact));
        },
        _ => {},
    }
}

/// The text of an attribute of a known shape.
pub proof fn lemma_shape_lit(m: Meta, s: MetaShape, prefix: Seq<char>, compact: bool)
    requires
        has_shape(m, s),
    ensures
        meta_lit(m, prefix, compact) == shape_lit(s, prefix, compact),
{
    match s {
        MetaShape::Leaf(l) => {
            match m {
                Meta::Path { .. } => {},
                Meta::Value { .. } => {},
                _ => {},
            }
        },
        MetaShape::LeafList(name, ls) => lemma_leaf_list_lit(m, name, ls, prefix, compact),
    }
}

/// The text of a list whose members have known shapes.
pub proof fn lemma_shape_list_lit(m: Meta, name: Seq<char>, shapes: Seq<MetaShape>, prefix: Seq<char>, compact: bool)
    requires
        is_shape_list(m, name, shapes),
    ensures
        meta_lit(m, prefix, compact) == list_lit(name, shapes_lits(shapes, prefix + indent_unit(), compact), prefix, compact),
        meta_attr(m, prefix) == shape_list_attr(name, shapes, prefix),
{
    match m {
        Meta::List { name: n, metas } => {
            let nested = prefix + indent_unit();
            lemma_metas_lits(metas@, nested, compact);
            assert forall|i: int| 0 <= i < metas@.len() implies meta_lit(#[trigger] metas@[i], nested, compact) == shape_lit(shapes[i], nested, compact) by {
                lemma_shape_lit(metas@[i], shapes[i], nested, compact);
            }
            assert(metas_lits(metas@, nested, compact) =~= shapes_lits(shapes, nested, compact));
            let nested2 = nested + indent_unit();
            lemma_metas_lits(metas@, nested2, false);
            assert forall|i: int| 0 <= i < metas@.len() implies meta_lit(#[trigger] metas@[i], nested2, false) == shape_lit(shapes[i], nested2, false) by {
                lemma_shape_lit(metas@[i], shapes[i], nested2, false);
            }
            assert(metas_lits(metas@, nested2, false) =~= shapes_lits(shapes, nested2, false));
        },
        _ => {},
    }
}


/// The members of a `config(..)` attribute: the type, then the path when present.
pub open spec fn config_leaves(ty: Seq<char>, path: Option<String>) -> Seq<MetaLeaf> {
    push_opt_str(seq![MetaLeaf::Str { name: "ty"@, value: ty, raw: false }], "path"@, path, false)
}

/// `config(ty = "..", path = "..")`, the path only when present.
pub(crate) fn config_meta(ty: &String, path: &Option<String>) -> (m: Meta)
    ensures
        is_leaf_list(m, "config"@, config_leaves(ty@, *path)),
{
    let mut metas: Vec<Meta> = Vec::new();
    metas.push(meta_value_str("ty", ty.as_str(), false));
    assert(leaves_of(metas@) =~= seq![MetaLeaf::Str { name: "ty"@, value: ty@, raw: false }]);
    push_opt_str_meta(&mut metas, "path", path, false);
    let name = String::from_str("config");
    proof {
        lemma_leaf_list(name, metas, config_leaves(ty@, *path));
    }
    Meta::List { name, metas }
}

} // verus!
