//! Functions, blocks and statements of generated code.
use crate::models::data::{data_ty_lit, data_ty_to_literal, field_lit, DataField, DataType};
use crate::models::dependency::{given_or, last_given};
use crate::models::meta::{metas_block, metas_to_literal_prefixed, Meta};
use crate::text::{indent_literal, indent_seq, indent_unit, join, join_seqs, views};
use vstd::prelude::*;

verus! {

/// The right-hand side of a statement: an expression or a block.
#[derive(Debug)]
pub enum Rhs {
    Expr(String),
    Block(Block),
}

/// A statement, binding its right-hand side to `lhs` when one is given.
#[derive(Debug)]
pub struct Statement {
    pub lhs: Option<String>,
    pub rhs: Rhs,
}

/// A sequence of statements.
#[derive(Debug)]
pub struct Block {
    pub statements: Vec<Statement>,
}

/// The text of a right-hand side at indentation `prefix`.
pub open spec fn rhs_lit(r: Rhs, prefix: Seq<char>) -> Seq<char>
    decreases r,
{
    match r {
        Rhs::Expr(e) => prefix + e@,
        Rhs::Block(b) => block_lit(b, prefix),
    }
}

/// The text of a statement at indentation `prefix`.
pub open spec fn statement_lit(s: Statement, prefix: Seq<char>) -> Seq<char>
    decreases s,
{
    match s.lhs {
        None => rhs_lit(s.rhs, prefix),
        Some(l) => match s.rhs {
            Rhs::Expr(e) => prefix + "let "@ + l@ + " = "@ + e@,
            Rhs::Block(b) => prefix + "let "@ + l@ + " = {\n"@ + block_lit(b, prefix + indent_unit())
                + "\n"@ + prefix + "}"@,
        },
    }
}

/// The texts of statements at indentation `prefix`.
pub open spec fn statements_lits(ss: Seq<Statement>, prefix: Seq<char>) -> Seq<Seq<char>>
    decreases ss,
{
    if ss.len() == 0 {
        Seq::empty()
    } else {
        statements_lits(ss.drop_last(), prefix).push(statement_lit(ss.last(), prefix))
    }
}

/// The text of a block: its statements separated by `;` and line breaks.
pub open spec fn block_lit(b: Block, prefix: Seq<char>) -> Seq<char>
    decreases b,
{
    join_seqs(statements_lits(b.statements@, prefix), ";\n"@)
}

proof fn lemma_statements_lits(ss: Seq<Statement>, prefix: Seq<char>)
    ensures
        statements_lits(ss, prefix).len() == ss.len(),
        forall|i: int| 0 <= i < ss.len() ==> #[trigger] statements_lits(ss, prefix)[i] == statement_lit(ss[i], prefix),
    decreases ss.len(),
{
    if ss.len() > 0 {
        lemma_statements_lits(ss.drop_last(), prefix);
    }
}

fn nested_prefix(prefix: &String) -> (r: String)
    ensures
        r@ == prefix@ + indent_unit(),
{
    let mut r = prefix.clone();
    r.append("    ");
    proof {
        reveal_strlit("    ");
        assert(r@ =~= prefix@ + indent_unit());
    }
    r
}

fn rhs_to_lit(rhs: &Rhs, prefix: &String) -> (r: String)
    ensures
        r@ == rhs_lit(*rhs, prefix@),
    decreases rhs,
{
    match rhs {
        Rhs::Expr(expr) => {
            let mut r = prefix.clone();
            r.append(expr.as_str());
            r
        },
        Rhs::Block(block) => block.to_literal_prefixed(prefix),
    }
}

impl Statement {
    /// A statement binding `rhs` to `lhs` when given.
    pub fn new(lhs: Option<String>, rhs: Rhs) -> (s: Self)
        ensures
            s == (Statement { lhs, rhs }),
    {
        Statement { lhs, rhs }
    }

    pub(crate) fn to_literal_prefixed(&self, prefix: &String) -> (r: String)
        ensures
            r@ == statement_lit(*self, prefix@),
        decreases self,
    {
        let lhs = match &self.lhs {
            Some(lhs) => lhs,
            None => return rhs_to_lit(&self.rhs, prefix),
        };
        match &self.rhs {
            Rhs::Expr(expr) => {
                let mut r = prefix.clone();
                r.append("let ");
                r.append(lhs.as_str());
                r.append(" = ");
                r.append(expr.as_str());
                r
            },
            Rhs::Block(block) => {
                let nested = nested_prefix(prefix);
                let block_lit = block.to_literal_prefixed(&nested);
                let mut r = prefix.clone();
                r.append("let ");
                r.append(lhs.as_str());
                r.append(" = {\n");
                r.append(block_lit.as_str());
                r.append("\n");
                r.append(prefix.as_str());
                r.append("}");
                r
            },
        }
    }

    /// The statement at indentation level `indent`.
    pub fn to_literal(&self, indent: usize) -> (r: String)
        ensures
            r@ == statement_lit(*self, indent_seq(indent as nat)),
    {
        let prefix = indent_literal(indent);
        self.to_literal_prefixed(&prefix)
    }
}

impl Block {
    /// A block of `statements`.
    pub fn new(statements: Vec<Statement>) -> (b: Self)
        ensures
            b == (Block { statements }),
    {
        Block { statements }
    }

    pub(crate) fn to_literal_prefixed(&self, prefix: &String) -> (r: String)
        ensures
            r@ == block_lit(*self, prefix@),
        decreases self,
    {
        proof {
            lemma_statements_lits(self.statements@, prefix@);
        }
        let mut lits: Vec<String> = Vec::new();
        let mut i: usize = 0;
        #[verifier::loop_isolation(false)]
        while i < self.statements.len()
            invariant
                i <= self.statements.len(),
                lits.len() == i,
                forall|j: int| 0 <= j < i ==> #[trigger] lits@[j]@ == statement_lit(self.statements@[j], prefix@),
            decreases self.statements.len() - i,
        {
            proof {
                assert(decreases_to!(*self => self.statements));
                assert(decreases_to!(self.statements => self.statements@));
                assert(decreases_to!(self.statements@ => self.statements@[i as int]));
            }
            lits.push(self.statements[i].to_literal_prefixed(prefix));
            i = i + 1;
        }
        assert(views(lits@) =~= statements_lits(self.statements@, prefix@));
        join(&lits, ";\n")
    }

    /// The block's statements at indentation level `indent`.
    pub fn to_literal(&self, indent: usize) -> (r: String)
        ensures
            r@ == block_lit(*self, indent_seq(indent as nat)),
    {
        let prefix = indent_literal(indent);
        self.to_literal_prefixed(&prefix)
    }
}

/// A function: attributes, visibility, asynchrony, name, arguments, body and return type.
#[derive(Debug)]
pub struct Function {
    pub name: String,
    pub metas: Vec<Meta>,
    pub is_public: bool,
    pub is_async: bool,
    pub args: Vec<DataField>,
    pub block: Block,
    pub rtype: Option<DataType>,
}

/// The argument list: each argument's declaration, separated by commas.
pub open spec fn input_lit(f: Function) -> Seq<char> {
    join_seqs(f.args@.map_values(|a: DataField| field_lit(a, Seq::empty())), ", "@)
}

/// `-> T` for a function with a return type.
pub open spec fn rtype_lit(f: Function) -> Option<Seq<char>> {
    match f.rtype {
        Some(t) => Some("-> "@ + data_ty_lit(t)),
        None => None,
    }
}

/// The words of a signature: `pub`, `async`, `fn`, `name(args)` and the return type, as present.
pub open spec fn signature_words(f: Function) -> Seq<Seq<char>> {
    let s = if f.is_public { seq!["pub"@] } else { Seq::empty() };
    let s = if f.is_async { s.push("async"@) } else { s };
    let s = s.push("fn"@).push(f.name@ + "("@ + input_lit(f) + ")"@);
    match rtype_lit(f) {
        Some(r) => s.push(r),
        None => s,
    }
}

/// A function's text at indentation `prefix`: attributes when it has any, signature and body.
pub open spec fn function_lit(f: Function, prefix: Seq<char>) -> Seq<char> {
    let body = prefix + join_seqs(signature_words(f), " "@) + " {\n"@ + block_lit(f.block, prefix + indent_unit())
        + "\n"@ + prefix + "}"@;
    if f.metas.len() > 0 {
        metas_block(f.metas@, prefix) + "\n"@ + body
    } else {
        body
    }
}

impl Function {
    /// The function is ready to be rendered: its arguments are `init`-ed.
    pub open spec fn ready(&self) -> bool {
        forall|i: int| 0 <= i < self.args.len() ==> (#[trigger] self.args@[i]).inited()
    }

    pub(crate) fn to_literal_prefixed(&self, prefix: &String) -> (r: String)
        requires
            self.ready(),
        ensures
            r@ == function_lit(*self, prefix@),
    {
        let signature_lit = self.get_signature_literal_prefixed(prefix);
        let nested = nested_prefix(prefix);
        let block_lit = self.block.to_literal_prefixed(&nested);
        let mut function_lit = signature_lit;
        function_lit.append(" {\n");
        function_lit.append(block_lit.as_str());
        function_lit.append("\n");
        function_lit.append(prefix.as_str());
        function_lit.append("}");
        match self.get_metas_literal_prefixed(prefix) {
            Some(meta_lits) => {
                let mut r = meta_lits;
                r.append("\n");
                r.append(function_lit.as_str());
                r
            },
            None => function_lit,
        }
    }

    /// The function at indentation level `indent`.
    pub fn to_literal(&self, indent: usize) -> (r: String)
        requires
            self.ready(),
        ensures
            r@ == function_lit(*self, indent_seq(indent as nat)),
    {
        let prefix = indent_literal(indent);
        self.to_literal_prefixed(&prefix)
    }

    fn get_signature_literal_prefixed(&self, prefix: &String) -> (r: String)
        requires
            self.ready(),
        ensures
            r@ == prefix@ + join_seqs(signature_words(*self), " "@),
    {
        let mut lits: Vec<String> = Vec::new();
        if self.is_public {
            lits.push(String::from_str("pub"));
        }
        if self.is_async {
            lits.push(String::from_str("async"));
        }
        lits.push(String::from_str("fn"));
        let input_lit = self.get_input_literal();
        let mut call = self.name.clone();
        call.append("(");
        call.append(input_lit.as_str());
        call.append(")");
        lits.push(call);
        if let Some(rtype_lit) = self.get_rtype_literal() {
            lits.push(rtype_lit);
        }
        assert(views(lits@) =~= signature_words(*self));
        let joined = join(&lits, " ");
        let mut r = prefix.clone();
        r.append(joined.as_str());
        r
    }

    fn get_input_literal(&self) -> (r: String)
        requires
            self.ready(),
        ensures
            r@ == input_lit(*self),
    {
        let mut lits: Vec<String> = Vec::new();
        let empty = String::new();
        let mut i: usize = 0;
        while i < self.args.len()
            invariant
                i <= self.args.len(),
                self.ready(),
                empty@ == Seq::<char>::empty(),
                lits.len() == i,
                forall|j: int| 0 <= j < i ==> #[trigger] lits@[j]@ == field_lit(self.args@[j], Seq::empty()),
            decreases self.args.len() - i,
        {
            lits.push(self.args[i].to_literal_prefixed(&empty));
            i = i + 1;
        }
        assert(views(lits@) =~= self.args@.map_values(|a: DataField| field_lit(a, Seq::empty())));
        join(&lits, ", ")
    }

    fn get_rtype_literal(&self) -> (r: Option<String>)
        ensures
            r is Some == rtype_lit(*self) is Some,
            r is Some ==> r.unwrap()@ == rtype_lit(*self).unwrap(),
    {
        let rtype = match self.rtype {
            Some(ref rtype) => rtype,
            None => return None,
        };
        let lit = data_ty_to_literal(rtype);
        let mut r = String::from_str("-> ");
        r.append(lit.as_str());
        Some(r)
    }

    fn get_metas_literal_prefixed(&self, prefix: &String) -> (r: Option<String>)
        ensures
            r is Some == (self.metas.len() > 0),
            r is Some ==> r.unwrap()@ == metas_block(self.metas@, prefix@),
    {
        if self.metas.len() == 0 {
            return None;
        }
        Some(metas_to_literal_prefixed(self.metas.as_slice(), prefix))
    }
}

/// Builds a function part by part.
#[derive(Debug)]
pub struct FunctionBuilder {
    pub name: Option<String>,
    pub metas: Vec<Meta>,
    pub is_public: bool,
    pub is_async: bool,
    pub args: Vec<DataField>,
    pub block: Option<Block>,
    pub rtype: Option<DataType>,
}

/// One setter call on a [`FunctionBuilder`], with its argument.
pub enum FunctionSetting {
    Name(String),
    Meta(Meta),
    Metas(Vec<Meta>),
    Public(bool),
    Asynchronous(bool),
    Args(Vec<DataField>),
    Block(Block),
    Rtype(DataType),
}

/// A function builder as plain values.
pub ghost struct FunctionBuilderView {
    pub name: Option<String>,
    pub metas: Seq<Meta>,
    pub is_public: bool,
    pub is_async: bool,
    pub args: Seq<DataField>,
    pub block: Option<Block>,
    pub rtype: Option<DataType>,
}

/// The plain values of a function builder.
pub open spec fn builder_view(b: FunctionBuilder) -> FunctionBuilderView {
    FunctionBuilderView {
        name: b.name,
        metas: b.metas@,
        is_public: b.is_public,
        is_async: b.is_async,
        args: b.args@,
        block: b.block,
        rtype: b.rtype,
    }
}

/// The builder `v` after the setter call `s`: that call's field takes its
/// argument (a single attribute becomes the only one), the others stay.
pub open spec fn function_set(v: FunctionBuilderView, s: FunctionSetting) -> FunctionBuilderView {
    match s {
        FunctionSetting::Name(x) => FunctionBuilderView { name: Some(x), ..v },
        FunctionSetting::Meta(m) => FunctionBuilderView { metas: seq![m], ..v },
        FunctionSetting::Metas(ms) => FunctionBuilderView { metas: ms@, ..v },
        FunctionSetting::Public(x) => FunctionBuilderView { is_public: x, ..v },
        FunctionSetting::Asynchronous(x) => FunctionBuilderView { is_async: x, ..v },
        FunctionSetting::Args(x) => FunctionBuilderView { args: x@, ..v },
        FunctionSetting::Block(x) => FunctionBuilderView { block: Some(x), ..v },
        FunctionSetting::Rtype(x) => FunctionBuilderView { rtype: Some(x), ..v },
    }
}

/// The builder `v` after the setter calls `calls`, in order.
pub open spec fn function_after(v: FunctionBuilderView, calls: Seq<FunctionSetting>) -> FunctionBuilderView
    decreases calls.len(),
{
    if calls.len() == 0 {
        v
    } else {
        function_set(function_after(v, calls.drop_last()), calls.last())
    }
}

/// After any sequence of setter calls, each part of the builder holds the
/// last value given for it (for the attributes, by `meta` or `metas`), or
/// what it held before when none was; so a builder made by `new` can be built
/// exactly when some call set the name and some call set the body.
pub proof fn lemma_function_builder_calls(v: FunctionBuilderView, calls: Seq<FunctionSetting>)
    ensures
        function_after(v, calls).name == given_or(
            last_given(calls, |s: FunctionSetting| match s { FunctionSetting::Name(x) => Some(Some(x)), _ => None }),
            v.name,
        ),
        function_after(v, calls).metas == given_or(
            last_given(
                calls,
                |s: FunctionSetting|
                    match s {
                        FunctionSetting::Meta(m) => Some(seq![m]),
                        FunctionSetting::Metas(ms) => Some(ms@),
                        _ => None,
                    },
            ),
            v.metas,
        ),
        function_after(v, calls).is_public == given_or(
            last_given(calls, |s: FunctionSetting| match s { FunctionSetting::Public(x) => Some(x), _ => None }),
            v.is_public,
        ),
        function_after(v, calls).is_async == given_or(
            last_given(calls, |s: FunctionSetting| match s { FunctionSetting::Asynchronous(x) => Some(x), _ => None }),
            v.is_async,
        ),
        function_after(v, calls).args == given_or(
            last_given(calls, |s: FunctionSetting| match s { FunctionSetting::Args(x) => Some(x@), _ => None }),
            v.args,
        ),
        function_after(v, calls).block == given_or(
            last_given(calls, |s: FunctionSetting| match s { FunctionSetting::Block(x) => Some(Some(x)), _ => None }),
            v.block,
        ),
        function_after(v, calls).rtype == given_or(
            last_given(calls, |s: FunctionSetting| match s { FunctionSetting::Rtype(x) => Some(Some(x)), _ => None }),
            v.rtype,
        ),
    decreases calls.len(),
{
    if calls.len() > 0 {
        lemma_function_builder_calls(v, calls.drop_last());
    }
}

impl FunctionBuilder {
    /// A builder with nothing set: no name, attributes, arguments, body or
    /// return type; private and synchronous.
    pub fn new() -> (b: Self)
        ensures
            b.name is None,
            b.metas@.len() == 0,
            !b.is_public,
            !b.is_async,
            b.args@.len() == 0,
            b.block is None,
            b.rtype is None,
    {
        FunctionBuilder {
            name: None,
            metas: Vec::new(),
            is_public: false,
            is_async: false,
            args: Vec::new(),
            block: None,
            rtype: None,
        }
    }

    /// Sets the name.
    pub fn name(self, name: String) -> (b: Self)
        ensures
            b == (FunctionBuilder { name: Some(name), ..self }),
            builder_view(b) == function_set(builder_view(self), FunctionSetting::Name(name)),
    {
        FunctionBuilder { name: Some(name), ..self }
    }

    /// Sets a single attribute.
    pub fn meta(self, meta: Meta) -> (b: Self)
        ensures
            b.metas@ == seq![meta],
            b.name == self.name,
            b.is_public == self.is_public,
            b.is_async == self.is_async,
            b.args == self.args,
            b.block == self.block,
            b.rtype == self.rtype,
            builder_view(b) == function_set(builder_view(self), FunctionSetting::Meta(meta)),
    {
        let mut metas: Vec<Meta> = Vec::new();
        metas.push(meta);
        FunctionBuilder { metas, ..self }
    }

    /// Sets the attributes.
    pub fn metas(self, metas: Vec<Meta>) -> (b: Self)
        ensures
            b == (FunctionBuilder { metas, ..self }),
            builder_view(b) == function_set(builder_view(self), FunctionSetting::Metas(metas)),
    {
        FunctionBuilder { metas, ..self }
    }

    /// Sets the visibility.
    pub fn public(self, is_public: bool) -> (b: Self)
        ensures
            b == (FunctionBuilder { is_public, ..self }),
            builder_view(b) == function_set(builder_view(self), FunctionSetting::Public(is_public)),
    {
        FunctionBuilder { is_public, ..self }
    }

    /// Sets whether the function is `async`.
    pub fn asynchronous(self, is_async: bool) -> (b: Self)
        ensures
            b == (FunctionBuilder { is_async, ..self }),
            builder_view(b) == function_set(builder_view(self), FunctionSetting::Asynchronous(is_async)),
    {
        FunctionBuilder { is_async, ..self }
    }

    /// Sets the arguments.
    pub fn args(self, args: Vec<DataField>) -> (b: Self)
        ensures
            b == (FunctionBuilder { args, ..self }),
            builder_view(b) == function_set(builder_view(self), FunctionSetting::Args(args)),
    {
        FunctionBuilder { args, ..self }
    }

    /// Sets the body.
    pub fn block(self, block: Block) -> (b: Self)
        ensures
            b == (FunctionBuilder { block: Some(block), ..self }),
            builder_view(b) == function_set(builder_view(self), FunctionSetting::Block(block)),
    {
        FunctionBuilder { block: Some(block), ..self }
    }

    /// Sets the return type.
    pub fn rtype(self, rtype: DataType) -> (b: Self)
        ensures
            b == (FunctionBuilder { rtype: Some(rtype), ..self }),
            builder_view(b) == function_set(builder_view(self), FunctionSetting::Rtype(rtype)),
    {
        FunctionBuilder { rtype: Some(rtype), ..self }
    }

    /// The function; name and body must have been set.
    pub fn build(self) -> (f: Function)
        requires
            self.name is Some,
            self.block is Some,
        ensures
            f == (Function {
                name: self.name.unwrap(),
                metas: self.metas,
                is_public: self.is_public,
                is_async: self.is_async,
                args: self.args,
                block: self.block.unwrap(),
                rtype: self.rtype,
            }),
    {
        Function {
            name: self.name.unwrap(),
            metas: self.metas,
            is_public: self.is_public,
            is_async: self.is_async,
            args: self.args,
            block: self.block.unwrap(),
            rtype: self.rtype,
        }
    }
}

} // verus!
