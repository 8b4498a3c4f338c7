//! Pipes: the stages of a pipeline.
use crate::models::data::{data_ty_lit, data_ty_to_literal, DataType};
use crate::models::dependency::{
    default_avro_dependency, default_cql_dependency, default_csv_dependency,
    default_dynamodb_dependency, default_json_dependency, default_kafka_dependency,
    default_kube_dependency, default_mqtt_dependency, default_mysql_dependency,
    default_psql_dependency, default_redis_dependency, default_reqwest_dependency,
    default_rocksdb_dependency, default_s3_dependency, default_sns_dependency,
    default_sqs_dependency, default_warp_dependency, plugin_view, repo_plugin_view, Dependency,
    DependencyView, UseCrate,
};
use crate::models::meta::{
    config_leaves, config_meta, is_leaf_list, is_shape_list, lemma_shape_list_lit, meta_leaf,
    meta_to_literal, meta_value_str, meta_value_usize, shape_list_attr, Meta, MetaLeaf, MetaShape,
};
use crate::models::Entity;
use crate::text::{copy_strings, indent_literal, indent_seq, join, join_seqs, str_eq, views};
use vstd::prelude::*;

verus! {

/// The kinds of pipe.
#[derive(Clone, Copy, Debug, PartialEq, Eq)]
pub enum PipeType {
    Listener,
    Poller,
    Mapper,
    Collector,
    Selector,
    Exporter,
    Streamer,
}

/// The name of a pipe kind as written in generated code.
pub open spec fn pipe_type_name(t: PipeType) -> Seq<char> {
    match t {
        PipeType::Listener => "listener"@,
        PipeType::Poller => "poller"@,
        PipeType::Mapper => "mapper"@,
        PipeType::Collector => "collector"@,
        PipeType::Selector => "selector"@,
        PipeType::Exporter => "exporter"@,
        PipeType::Streamer => "streamer"@,
    }
}

/// Each pipe kind is written under its own lower-case name, and no two kinds
/// share a name.
pub proof fn lemma_pipe_type_names()
    ensures
        pipe_type_name(PipeType::Listener) == "listener"@,
        pipe_type_name(PipeType::Poller) == "poller"@,
        pipe_type_name(PipeType::Mapper) == "mapper"@,
        pipe_type_name(PipeType::Collector) == "collector"@,
        pipe_type_name(PipeType::Selector) == "selector"@,
        pipe_type_name(PipeType::Exporter) == "exporter"@,
        pipe_type_name(PipeType::Streamer) == "streamer"@,
        forall|a: PipeType, b: PipeType| a != b ==> #[trigger] pipe_type_name(a) != #[trigger] pipe_type_name(b),
{
    reveal_strlit("listener");
    reveal_strlit("poller");
    reveal_strlit("mapper");
    reveal_strlit("collector");
    reveal_strlit("selector");
    reveal_strlit("exporter");
    reveal_strlit("streamer");
    assert forall|a: PipeType, b: PipeType| a != b implies #[trigger] pipe_type_name(a) != #[trigger] pipe_type_name(b) by {
        let x = pipe_type_name(a);
        let y = pipe_type_name(b);
        if x == y {
            assert(x.len() == y.len());
            assert(x[0] == y[0]);
            assert(x[1] == y[1]);
            assert(x[2] == y[2]);
        }
    }
}

impl PipeType {
    /// The kind's name in lower case.
    pub fn to_string(&self) -> (r: String)
        ensures
            r@ == pipe_type_name(*self),
    {
        match self {
            PipeType::Listener => String::from_str("listener"),
            PipeType::Poller => String::from_str("poller"),
            PipeType::Mapper => String::from_str("mapper"),
            PipeType::Collector => String::from_str("collector"),
            PipeType::Selector => String::from_str("selector"),
            PipeType::Exporter => String::from_str("exporter"),
            PipeType::Streamer => String::from_str("streamer"),
        }
    }
}

/// The configuration of a pipe: its type and an optional file path.
#[derive(Debug)]
pub struct PipeConfig {
    pub ty: String,
    pub path: Option<String>,
}

/// `{ type: T, path: P }`, or `{ type: T }` without a path.
pub open spec fn config_display(c: PipeConfig) -> Seq<char> {
    match c.path {
        Some(p) => "{ type: "@ + c.ty@ + ", path: "@ + p@ + " }"@,
        None => "{ type: "@ + c.ty@ + " }"@,
    }
}

/// A configuration with a path is shown as the same configuration without
/// one, with `, path: ` and the path put in before the closing ` }`; the type
/// is shown after `{ type: `.
pub proof fn lemma_config_display_path(ty: String, p: String)
    ensures
        config_display(PipeConfig { ty, path: None }) == "{ type: "@ + ty@ + " }"@,
        config_display(PipeConfig { ty, path: Some(p) }) == config_display(PipeConfig { ty, path: None }).drop_last().drop_last()
            + ", path: "@ + p@ + " }"@,
{
    reveal_strlit(" }");
    let without = config_display(PipeConfig { ty, path: None });
    assert(without.drop_last().drop_last() =~= "{ type: "@ + ty@);
}

impl PipeConfig {
    /// The configuration path, if any.
    pub fn get_path(&self) -> (r: Option<&String>)
        ensures
            r == (match self.path {
                Some(p) => Some(&p),
                None => None,
            }),
    {
        self.path.as_ref()
    }

    /// The configuration type.
    pub fn get_config_type(&self) -> (r: &String)
        ensures
            *r == self.ty,
    {
        &self.ty
    }

    /// The configuration as shown in a description.
    pub fn display(&self) -> (r: String)
        ensures
            r@ == config_display(*self),
    {
        let mut r = String::from_str("{ type: ");
        r.append(self.ty.as_str());
        match &self.path {
            Some(path) => {
                r.append(", path: ");
                r.append(path.as_str());
                r.append(" }");
            },
            None => {
                r.append(" }");
            },
        }
        r
    }
}

/// A pipe: its name, kind, configuration, channel buffer, upstream pipes and output type.
#[derive(Debug)]
pub struct Pipe {
    pub name: String,
    pub ty: PipeType,
    pub config: PipeConfig,
    pub buffer: Option<usize>,
    pub upstreams: Option<Vec<String>>,
    pub output: Option<DataType>,
}

/// The upstream pipe names, none when left out.
pub open spec fn pipe_upstreams(p: Pipe) -> Seq<Seq<char>> {
    match p.upstreams {
        Some(u) => views(u@),
        None => Seq::empty(),
    }
}

/// Listeners and pollers start pipelines.
pub open spec fn is_source_type(t: PipeType) -> bool {
    t == PipeType::Listener || t == PipeType::Poller
}

/// Exporters end pipelines.
pub open spec fn is_sink_type(t: PipeType) -> bool {
    t == PipeType::Exporter
}

/// The members of a pipe's `pipe(..)` attribute: name, kind and configuration;
/// then the upstream names when there are any, the output type when given and
/// the buffer size when set.
pub open spec fn pipe_shapes(p: Pipe) -> Seq<MetaShape> {
    pipe_shapes_with(p, pipe_upstreams(p))
}

/// The members of the `pipe(..)` attribute of `p` with upstream names `ups`.
pub open spec fn pipe_shapes_with(p: Pipe, ups: Seq<Seq<char>>) -> Seq<MetaShape> {
    let s = seq![
        MetaShape::Leaf(MetaLeaf::Str { name: "name"@, value: p.name@, raw: false }),
        MetaShape::Leaf(MetaLeaf::Str { name: "ty"@, value: pipe_type_name(p.ty), raw: false }),
        MetaShape::LeafList("config"@, config_leaves(p.config.ty@, p.config.path)),
    ];
    let s = if ups.len() > 0 {
        s.push(MetaShape::Leaf(MetaLeaf::Str { name: "upstream"@, value: join_seqs(ups, ", "@), raw: false }))
    } else {
        s
    };
    let s = match p.output {
        Some(o) => s.push(MetaShape::Leaf(MetaLeaf::Str { name: "output"@, value: data_ty_lit(o), raw: false })),
        None => s,
    };
    match p.buffer {
        Some(b) => s.push(MetaShape::Leaf(MetaLeaf::Usize { name: "buffer"@, value: b as nat })),
        None => s,
    }
}

/// The description of a pipe: name, kind, configuration and upstream names.
pub open spec fn pipe_display(p: Pipe) -> Seq<char> {
    "Name:   "@ + p.name@ + "\n"@ + "Type:   "@ + pipe_type_name(p.ty) + "\n"@ + "Config: "@
        + config_display(p.config) + "\n"@ + "Upstream: ["@ + join_seqs(pipe_upstreams(p), ", "@)
        + "]\n"@
}

/// Whether a text is among the texts of a list.
pub fn contains_str(list: &Vec<String>, s: &str) -> (r: bool)
    ensures
        r == views(list@).contains(s@),
{
    let mut i: usize = 0;
    while i < list.len()
        invariant
            i <= list.len(),
            forall|j: int| 0 <= j < i ==> list@[j]@ != s@,
        decreases list.len() - i,
    {
        if str_eq(list[i].as_str(), s) {
            assert(views(list@)[i as int] == s@);
            return true;
        }
        i = i + 1;
    }
    proof {
        if views(list@).contains(s@) {
            let k = choose|k: int| 0 <= k < views(list@).len() && views(list@)[k] == s@;
            assert(list@[k]@ == s@);
        }
    }
    false
}

/// `name = "value"` at indentation `prefix`.
pub open spec fn quoted_meta_lit(prefix: Seq<char>, name: Seq<char>, value: Seq<char>) -> Seq<char> {
    prefix + name + " = \""@ + value + "\""@
}

/// The configuration attribute at indentation `prefix`:
/// `config(ty = "T", path = "P")`, or `config(ty = "T")` without a path.
pub open spec fn config_meta_lit(prefix: Seq<char>, c: PipeConfig) -> Seq<char> {
    let ty = quoted_meta_lit(Seq::empty(), "ty"@, c.ty@);
    match c.path {
        Some(p) => prefix + "config("@ + ty + ", "@ + quoted_meta_lit(Seq::empty(), "path"@, p@) + ")"@,
        None => prefix + "config("@ + ty + ")"@,
    }
}

/// `name = "value"` at nesting depth `indent`.
fn quoted_meta_literal(indent: usize, name: &str, value: &str) -> (r: String)
    ensures
        r@ == quoted_meta_lit(indent_seq(indent as nat), name@, value@),
{
    let mut r = indent_literal(indent);
    r.append(name);
    r.append(" = \"");
    r.append(value);
    r.append("\"");
    r
}

impl Pipe {
    /// `name = "<name>"` at nesting depth `indent`.
    pub fn get_name_meta_literal(&self, indent: usize) -> (r: String)
        ensures
            r@ == quoted_meta_lit(indent_seq(indent as nat), "name"@, self.name@),
    {
        quoted_meta_literal(indent, "name", self.name.as_str())
    }

    /// `ty = "<kind>"` at nesting depth `indent`.
    pub fn get_type_meta_literal(&self, indent: usize) -> (r: String)
        ensures
            r@ == quoted_meta_lit(indent_seq(indent as nat), "ty"@, pipe_type_name(self.ty)),
    {
        let t = self.ty.to_string();
        quoted_meta_literal(indent, "ty", t.as_str())
    }

    /// The configuration attribute at nesting depth `indent`, see [`config_meta_lit`].
    pub fn get_config_meta_literal(&self, indent: usize) -> (r: String)
        ensures
            r@ == config_meta_lit(indent_seq(indent as nat), self.config),
    {
        let ty = quoted_meta_literal(0, "ty", self.config.ty.as_str());
        let mut r = indent_literal(indent);
        r.append("config(");
        r.append(ty.as_str());
        match &self.config.path {
            Some(path) => {
                let p = quoted_meta_literal(0, "path", path.as_str());
                r.append(", ");
                r.append(p.as_str());
            },
            None => {},
        }
        r.append(")");
        proof {
            assert(indent_seq(0) =~= Seq::<char>::empty());
        }
        r
    }

    /// `upstream = "<names joined by , >"` at nesting depth `indent`, or
    /// `None` when the pipe names no upstream.
    pub fn get_upstream_meta_literal(&self, indent: usize) -> (r: Option<String>)
        ensures
            r is Some == (pipe_upstreams(*self).len() > 0),
            r is Some ==> r.unwrap()@ == quoted_meta_lit(
                indent_seq(indent as nat),
                "upstream"@,
                join_seqs(pipe_upstreams(*self), ", "@),
            ),
    {
        let upstreams = match &self.upstreams {
            Some(u) => u,
            None => return None,
        };
        if upstreams.len() == 0 {
            return None;
        }
        let joined = join(upstreams, ", ");
        Some(quoted_meta_literal(indent, "upstream", joined.as_str()))
    }

    /// `output = "<type>"` at nesting depth `indent`, or `None` without an
    /// output type.
    pub fn get_output_data_type_meta_literal(&self, indent: usize) -> (r: Option<String>)
        ensures
            r is Some == self.output is Some,
            r is Some ==> r.unwrap()@ == quoted_meta_lit(
                indent_seq(indent as nat),
                "output"@,
                data_ty_lit(self.output.unwrap()),
            ),
    {
        let output = match self.output {
            Some(ref output) => output,
            None => return None,
        };
        let lit = data_ty_to_literal(output);
        Some(quoted_meta_literal(indent, "output", lit.as_str()))
    }

    /// A pipe as written in a manifest, before `init`.
    pub fn new(
        name: String,
        ty: PipeType,
        config: PipeConfig,
        buffer: Option<usize>,
        upstreams: Option<Vec<String>>,
        output: Option<DataType>,
    ) -> (p: Self)
        ensures
            p == (Pipe { name, ty, config, buffer, upstreams, output }),
    {
        Pipe { name, ty, config, buffer, upstreams, output }
    }

    /// Leaves no upstream list unset: an absent one becomes empty.
    pub fn init(&mut self)
        ensures
            final(self).name == old(self).name,
            final(self).ty == old(self).ty,
            final(self).config == old(self).config,
            final(self).buffer == old(self).buffer,
            final(self).output == old(self).output,
            final(self).upstreams is Some,
            pipe_upstreams(*final(self)) == pipe_upstreams(*old(self)),
            old(self).upstreams is Some ==> final(self).upstreams == old(self).upstreams,
    {
        if self.upstreams.is_none() {
            self.upstreams = Some(Vec::new());
            assert(pipe_upstreams(*self) =~= pipe_upstreams(*old(self)));
        }
    }

    /// Listeners and pollers are sources.
    pub fn is_source(&self) -> (r: bool)
        ensures
            r == is_source_type(self.ty),
    {
        match self.ty {
            PipeType::Listener | PipeType::Poller => true,
            _ => false,
        }
    }

    /// Exporters are sinks.
    pub fn is_sink(&self) -> (r: bool)
        ensures
            r == is_sink_type(self.ty),
    {
        match self.ty {
            PipeType::Exporter => true,
            _ => false,
        }
    }

    fn get_name_meta(&self) -> (m: Meta)
        ensures
            meta_leaf(m) == Some(MetaLeaf::Str { name: "name"@, value: self.name@, raw: false }),
    {
        meta_value_str("name", self.name.as_str(), false)
    }

    fn get_type_meta(&self) -> (m: Meta)
        ensures
            meta_leaf(m) == Some(MetaLeaf::Str { name: "ty"@, value: pipe_type_name(self.ty), raw: false }),
    {
        let t = self.ty.to_string();
        meta_value_str("ty", t.as_str(), false)
    }

    fn get_config_meta(&self) -> (m: Meta)
        ensures
            is_leaf_list(m, "config"@, config_leaves(self.config.ty@, self.config.path)),
    {
        config_meta(&self.config.ty, &self.config.path)
    }

    fn get_upstream_meta(&self) -> (r: Option<Meta>)
        requires
            self.upstreams is Some,
        ensures
            r is Some == (pipe_upstreams(*self).len() > 0),
            r is Some ==> meta_leaf(r.unwrap()) == Some(
                MetaLeaf::Str { name: "upstream"@, value: join_seqs(pipe_upstreams(*self), ", "@), raw: false },
            ),
    {
        let upstreams = match &self.upstreams {
            Some(u) => u,
            None => return None,
        };
        if upstreams.len() == 0 {
            return None;
        }
        let joined = join(upstreams, ", ");
        Some(meta_value_str("upstream", joined.as_str(), false))
    }

    fn get_output_data_type_meta(&self) -> (r: Option<Meta>)
        ensures
            r is Some == self.output is Some,
            r is Some ==> meta_leaf(r.unwrap()) == Some(
                MetaLeaf::Str { name: "output"@, value: data_ty_lit(self.output.unwrap()), raw: false },
            ),
    {
        let output = match self.output {
            Some(ref output) => output,
            None => return None,
        };
        let lit = data_ty_to_literal(output);
        Some(meta_value_str("output", lit.as_str(), false))
    }

    /// The output type, if any.
    pub fn get_output_data_type(&self) -> (r: Option<&DataType>)
        ensures
            r == (match self.output {
                Some(o) => Some(&o),
                None => None,
            }),
    {
        self.output.as_ref()
    }

    /// Whether an output type is given.
    pub fn has_output(&self) -> (r: bool)
        ensures
            r == self.output is Some,
    {
        self.output.is_some()
    }

    /// `buffer = n` when a buffer size is set.
    pub fn get_channel_buffer_meta(&self) -> (r: Option<Meta>)
        ensures
            r is Some == self.buffer is Some,
            r is Some ==> meta_leaf(r.unwrap()) == Some(
                MetaLeaf::Usize { name: "buffer"@, value: self.buffer.unwrap() as nat },
            ),
    {
        let buffer = match self.buffer {
            Some(ref buffer) => buffer,
            None => return None,
        };
        Some(meta_value_usize("buffer", buffer))
    }

    /// The pipe's `pipe(..)` attribute.
    pub fn get_meta(&self) -> (m: Meta)
        requires
            self.upstreams is Some,
        ensures
            is_shape_list(m, "pipe"@, pipe_shapes(*self)),
    {
        let mut metas: Vec<Meta> = Vec::new();
        metas.push(self.get_name_meta());
        metas.push(self.get_type_meta());
        metas.push(self.get_config_meta());
        if let Some(meta) = self.get_upstream_meta() {
            metas.push(meta);
        }
        if let Some(meta) = self.get_output_data_type_meta() {
            metas.push(meta);
        }
        if let Some(meta) = self.get_channel_buffer_meta() {
            metas.push(meta);
        }
        Meta::List { name: String::from_str("pipe"), metas }
    }

    /// Keeps only the upstream names in `pipe_id_filter`, in order.
    pub fn filter_upstreams(&mut self, pipe_id_filter: &Vec<String>)
        ensures
            final(self).name == old(self).name,
            final(self).ty == old(self).ty,
            final(self).config == old(self).config,
            final(self).buffer == old(self).buffer,
            final(self).output == old(self).output,
            final(self).upstreams is Some == old(self).upstreams is Some,
            pipe_upstreams(*final(self)) == pipe_upstreams(*old(self)).filter(
                |u: Seq<char>| views(pipe_id_filter@).contains(u),
            ),
    {
        let upstreams = match &self.upstreams {
            Some(u) => u,
            None => {
                assert(pipe_upstreams(*old(self)).filter(|u: Seq<char>| views(pipe_id_filter@).contains(u)) =~= Seq::<Seq<char>>::empty());
                return;
            },
        };
        let ghost ups = views(upstreams@);
        let ghost pred = |u: Seq<char>| views(pipe_id_filter@).contains(u);
        let mut kept: Vec<String> = Vec::new();
        let mut i: usize = 0;
        while i < upstreams.len()
            invariant
                i <= upstreams.len(),
                ups == views(upstreams@),
                pred == (|u: Seq<char>| views(pipe_id_filter@).contains(u)),
                views(kept@) == ups.subrange(0, i as int).filter(pred),
            decreases upstreams.len() - i,
        {
            proof {
                reveal_with_fuel(Seq::<_>::filter, 1);
                assert(ups.subrange(0, i + 1).drop_last() =~= ups.subrange(0, i as int));
            }
            let ghost before = kept@;
            let keep = contains_str(pipe_id_filter, upstreams[i].as_str());
            if keep {
                kept.push(upstreams[i].clone());
                assert(views(kept@) =~= views(before).push(ups[i as int]));
            }
            proof {
                let sub = ups.subrange(0, i + 1);
                assert(sub.last() == ups[i as int]);
                assert(ups[i as int] == upstreams@[i as int]@);
                assert(pred(ups[i as int]) == keep);
                assert(sub.filter(pred) == if pred(sub.last()) {
                    sub.drop_last().filter(pred).push(sub.last())
                } else {
                    sub.drop_last().filter(pred)
                });
            }
            i = i + 1;
        }
        assert(ups.subrange(0, upstreams.len() as int) =~= ups);
        self.upstreams = Some(kept);
    }

    /// The description of the pipe: name, kind, configuration and upstream names.
    pub fn display(&self) -> (r: String)
        ensures
            r@ == pipe_display(*self),
    {
        let mut r = String::from_str("Name:   ");
        r.append(self.name.as_str());
        r.append("\n");
        r.append("Type:   ");
        let t = self.ty.to_string();
        r.append(t.as_str());
        r.append("\n");
        r.append("Config: ");
        let c = self.config.display();
        r.append(c.as_str());
        r.append("\n");
        let upstream = match &self.upstreams {
            Some(upstreams) => join(upstreams, ", "),
            None => String::new(),
        };
        proof {
            if self.upstreams is None {
                assert(join_seqs(pipe_upstreams(*self), ", "@) =~= Seq::<char>::empty());
            }
        }
        r.append("Upstream: [");
        r.append(upstream.as_str());
        r.append("]\n");
        r
    }
}

impl Entity for Pipe {
    open spec fn entity_id(&self) -> Seq<char> {
        self.name@
    }

    open spec fn entity_deps(&self) -> Seq<Seq<char>> {
        pipe_upstreams(*self)
    }

    open spec fn entity_deps_ready(&self) -> bool {
        true
    }

    open spec fn entity_ready(&self) -> bool {
        self.upstreams is Some
    }

    open spec fn entity_lit(&self, prefix: Seq<char>) -> Seq<char> {
        shape_list_attr("pipe"@, pipe_shapes(*self), prefix)
    }

    fn get_id(&self) -> (r: String) {
        self.name.clone()
    }

    fn list_dependency(&self) -> (r: Vec<String>) {
        match &self.upstreams {
            Some(upstreams) => copy_strings(upstreams),
            None => {
                let r: Vec<String> = Vec::new();
                assert(views(r@) =~= Seq::<Seq<char>>::empty());
                r
            },
        }
    }

    fn to_literal(&self, indent: usize) -> (r: String) {
        let meta = self.get_meta();
        proof {
            lemma_shape_list_lit(meta, "pipe"@, pipe_shapes(*self), indent_seq(indent as nat), false);
        }
        meta_to_literal(&meta, indent)
    }
}

/// The plugin crate a pipe configuration type calls for.
pub open spec fn pipe_crate(ty: Seq<char>) -> Option<DependencyView> {
    if ty == "AvroDeserConfig"@ || ty == "AvroSerConfig"@ {
        Some(plugin_view("pipeavro"@, "0.1.3"@, "pipeavro::*"@))
    } else if ty == "CqlPreparedWriterConfig"@ || ty == "CqlWriterConfig"@ {
        Some(plugin_view("pipecql"@, "0.2.1"@, "pipecql::*"@))
    } else if ty == "CsvDeserConfig"@ || ty == "CsvSerConfig"@ {
        Some(plugin_view("pipecsv"@, "0.1.4"@, "pipecsv::*"@))
    } else if ty == "JsonDeserConfig"@ || ty == "JsonRecordSerConfig"@ || ty == "JsonSerConfig"@ {
        Some(plugin_view("pipejson"@, "0.1.5"@, "pipejson::*"@))
    } else if ty == "KafkaConsumerConfig"@ || ty == "KafkaPartitionedProducerConfig"@
        || ty == "KafkaProducerConfig"@ {
        Some(plugin_view("pipekafka"@, "0.2.2"@, "pipekafka::*"@))
    } else if ty == "KubeEventReaderConfig"@ || ty == "KubeLogReaderConfig"@ {
        Some(plugin_view("pipekube"@, "0.1.4"@, "pipekube::*"@))
    } else if ty == "MySQLPreparedWriterConfig"@ || ty == "MySQLWriterConfig"@ {
        Some(plugin_view("pipemysql"@, "0.2.1"@, "pipemysql::*"@))
    } else if ty == "PsqlPreparedWriterConfig"@ || ty == "PsqlWriterConfig"@ {
        Some(plugin_view("pipepsql"@, "0.2.1"@, "pipepsql::*"@))
    } else if ty == "RedisPublisherConfig"@ || ty == "RedisStringBatchWriterConfig"@
        || ty == "RedisStringWriterConfig"@ || ty == "RedisSubscriberConfig"@
        || ty == "RedisUnorderedGroupAddAggregatorConfig"@ {
        Some(plugin_view("piperedis"@, "0.1.5"@, "piperedis::*"@))
    } else if ty == "ReqwestGetterConfig"@ || ty == "ReqwestPosterConfig"@
        || ty == "ReqwestQueryConfig"@ {
        Some(plugin_view("pipereqwest"@, "0.1.4"@, "pipereqwest::*"@))
    } else if ty == "RocksDBUnorderedGroupAddAggregatorConfig"@ {
        Some(plugin_view("piperocksdb"@, "0.1.4"@, "piperocksdb::*"@))
    } else if ty == "WarpIngestionServerConfig"@ {
        Some(plugin_view("pipewarp"@, "0.1.4"@, "pipewarp::*"@))
    } else if ty == "DynamoDBWriterConfig"@ {
        Some(repo_plugin_view("pipedynamodb"@, "pipedynamodb::*"@))
    } else if ty == "S3WriterConfig"@ {
        Some(repo_plugin_view("pipes3"@, "pipes3::*"@))
    } else if ty == "SnsPublisherConfig"@ {
        Some(repo_plugin_view("pipesns"@, "pipesns::*"@))
    } else if ty == "SqsMessageReceiverConfig"@ {
        Some(repo_plugin_view("pipesqs"@, "pipesqs::*"@))
    } else if ty == "MqttPublisherConfig"@ || ty == "MqttSubscriberConfig"@ {
        Some(plugin_view("pipemqtt"@, "0.1.4"@, "pipemqtt::*"@))
    } else {
        None
    }
}

/// Each configuration type of a plugin calls for that plugin's crate: the
/// published version of the avro, cql, csv, json, kafka, kube, mysql, psql,
/// redis, reqwest, rocksdb, warp and mqtt crates, and the repository's dynamodb,
/// s3, sns and sqs crates, each with all its items in use.
pub proof fn lemma_pipe_crate_table()
    ensures
        pipe_crate("AvroDeserConfig"@) == Some(plugin_view("pipeavro"@, "0.1.3"@, "pipeavro::*"@)),
        pipe_crate("AvroSerConfig"@) == Some(plugin_view("pipeavro"@, "0.1.3"@, "pipeavro::*"@)),
        pipe_crate("CqlPreparedWriterConfig"@) == Some(plugin_view("pipecql"@, "0.2.1"@, "pipecql::*"@)),
        pipe_crate("CqlWriterConfig"@) == Some(plugin_view("pipecql"@, "0.2.1"@, "pipecql::*"@)),
        pipe_crate("CsvDeserConfig"@) == Some(plugin_view("pipecsv"@, "0.1.4"@, "pipecsv::*"@)),
        pipe_crate("CsvSerConfig"@) == Some(plugin_view("pipecsv"@, "0.1.4"@, "pipecsv::*"@)),
        pipe_crate("JsonDeserConfig"@) == Some(plugin_view("pipejson"@, "0.1.5"@, "pipejson::*"@)),
        pipe_crate("JsonRecordSerConfig"@) == Some(plugin_view("pipejson"@, "0.1.5"@, "pipejson::*"@)),
        pipe_crate("JsonSerConfig"@) == Some(plugin_view("pipejson"@, "0.1.5"@, "pipejson::*"@)),
        pipe_crate("KafkaConsumerConfig"@) == Some(plugin_view("pipekafka"@, "0.2.2"@, "pipekafka::*"@)),
        pipe_crate("KafkaPartitionedProducerConfig"@) == Some(plugin_view("pipekafka"@, "0.2.2"@, "pipekafka::*"@)),
        pipe_crate("KafkaProducerConfig"@) == Some(plugin_view("pipekafka"@, "0.2.2"@, "pipekafka::*"@)),
        pipe_crate("KubeEventReaderConfig"@) == Some(plugin_view("pipekube"@, "0.1.4"@, "pipekube::*"@)),
        pipe_crate("KubeLogReaderConfig"@) == Some(plugin_view("pipekube"@, "0.1.4"@, "pipekube::*"@)),
        pipe_crate("MySQLPreparedWriterConfig"@) == Some(plugin_view("pipemysql"@, "0.2.1"@, "pipemysql::*"@)),
        pipe_crate("MySQLWriterConfig"@) == Some(plugin_view("pipemysql"@, "0.2.1"@, "pipemysql::*"@)),
        pipe_crate("PsqlPreparedWriterConfig"@) == Some(plugin_view("pipepsql"@, "0.2.1"@, "pipepsql::*"@)),
        pipe_crate("PsqlWriterConfig"@) == Some(plugin_view("pipepsql"@, "0.2.1"@, "pipepsql::*"@)),
        pipe_crate("RedisPublisherConfig"@) == Some(plugin_view("piperedis"@, "0.1.5"@, "piperedis::*"@)),
        pipe_crate("RedisStringBatchWriterConfig"@) == Some(plugin_view("piperedis"@, "0.1.5"@, "piperedis::*"@)),
        pipe_crate("RedisStringWriterConfig"@) == Some(plugin_view("piperedis"@, "0.1.5"@, "piperedis::*"@)),
        pipe_crate("RedisSubscriberConfig"@) == Some(plugin_view("piperedis"@, "0.1.5"@, "piperedis::*"@)),
        pipe_crate("RedisUnorderedGroupAddAggregatorConfig"@) == Some(plugin_view("piperedis"@, "0.1.5"@, "piperedis::*"@)),
        pipe_crate("ReqwestGetterConfig"@) == Some(plugin_view("pipereqwest"@, "0.1.4"@, "pipereqwest::*"@)),
        pipe_crate("ReqwestPosterConfig"@) == Some(plugin_view("pipereqwest"@, "0.1.4"@, "pipereqwest::*"@)),
        pipe_crate("ReqwestQueryConfig"@) == Some(plugin_view("pipereqwest"@, "0.1.4"@, "pipereqwest::*"@)),
        pipe_crate("RocksDBUnorderedGroupAddAggregatorConfig"@) == Some(plugin_view("piperocksdb"@, "0.1.4"@, "piperocksdb::*"@)),
        pipe_crate("WarpIngestionServerConfig"@) == Some(plugin_view("pipewarp"@, "0.1.4"@, "pipewarp::*"@)),
        pipe_crate("MqttPublisherConfig"@) == Some(plugin_view("pipemqtt"@, "0.1.4"@, "pipemqtt::*"@)),
        pipe_crate("MqttSubscriberConfig"@) == Some(plugin_view("pipemqtt"@, "0.1.4"@, "pipemqtt::*"@)),
        pipe_crate("DynamoDBWriterConfig"@) == Some(repo_plugin_view("pipedynamodb"@, "pipedynamodb::*"@)),
        pipe_crate("S3WriterConfig"@) == Some(repo_plugin_view("pipes3"@, "pipes3::*"@)),
        pipe_crate("SnsPublisherConfig"@) == Some(repo_plugin_view("pipesns"@, "pipesns::*"@)),
        pipe_crate("SqsMessageReceiverConfig"@) == Some(repo_plugin_view("pipesqs"@, "pipesqs::*"@)),
{
    reveal_strlit("AvroDeserConfig");
    reveal_strlit("AvroSerConfig");
    reveal_strlit("CqlPreparedWriterConfig");
    reveal_strlit("CqlWriterConfig");
    reveal_strlit("CsvDeserConfig");
    reveal_strlit("CsvSerConfig");
    reveal_strlit("JsonDeserConfig");
    reveal_strlit("JsonRecordSerConfig");
    reveal_strlit("JsonSerConfig");
    reveal_strlit("KafkaConsumerConfig");
    reveal_strlit("KafkaPartitionedProducerConfig");
    reveal_strlit("KafkaProducerConfig");
    reveal_strlit("KubeEventReaderConfig");
    reveal_strlit("KubeLogReaderConfig");
    reveal_strlit("MySQLPreparedWriterConfig");
    reveal_strlit("MySQLWriterConfig");
    reveal_strlit("PsqlPreparedWriterConfig");
    reveal_strlit("PsqlWriterConfig");
    reveal_strlit("RedisPublisherConfig");
    reveal_strlit("RedisStringBatchWriterConfig");
    reveal_strlit("RedisStringWriterConfig");
    reveal_strlit("RedisSubscriberConfig");
    reveal_strlit("RedisUnorderedGroupAddAggregatorConfig");
    reveal_strlit("ReqwestGetterConfig");
    reveal_strlit("ReqwestPosterConfig");
    reveal_strlit("ReqwestQueryConfig");
    reveal_strlit("RocksDBUnorderedGroupAddAggregatorConfig");
    reveal_strlit("WarpIngestionServerConfig");
    reveal_strlit("MqttPublisherConfig");
    reveal_strlit("MqttSubscriberConfig");
    reveal_strlit("DynamoDBWriterConfig");
    reveal_strlit("S3WriterConfig");
    reveal_strlit("SnsPublisherConfig");
    reveal_strlit("SqsMessageReceiverConfig");
    assert("AvroDeserConfig"@.len() == 15);
    assert("AvroSerConfig"@.len() == 13);
    assert("CqlPreparedWriterConfig"@.len() == 23);
    assert("CqlWriterConfig"@.len() == 15);
    assert("CsvDeserConfig"@.len() == 14);
    assert("CsvSerConfig"@.len() == 12);
    assert("JsonDeserConfig"@.len() == 15);
    assert("JsonRecordSerConfig"@.len() == 19);
    assert("JsonSerConfig"@.len() == 13);
    assert("KafkaConsumerConfig"@.len() == 19);
    assert("KafkaPartitionedProducerConfig"@.len() == 30);
    assert("KafkaProducerConfig"@.len() == 19);
    assert("KubeEventReaderConfig"@.len() == 21);
    assert("KubeLogReaderConfig"@.len() == 19);
    assert("MySQLPreparedWriterConfig"@.len() == 25);
    assert("MySQLWriterConfig"@.len() == 17);
    assert("PsqlPreparedWriterConfig"@.len() == 24);
    assert("PsqlWriterConfig"@.len() == 16);
    assert("RedisPublisherConfig"@.len() == 20);
    assert("RedisStringBatchWriterConfig"@.len() == 28);
    assert("RedisStringWriterConfig"@.len() == 23);
    assert("RedisSubscriberConfig"@.len() == 21);
    assert("RedisUnorderedGroupAddAggregatorConfig"@.len() == 38);
    assert("ReqwestGetterConfig"@.len() == 19);
    assert("ReqwestPosterConfig"@.len() == 19);
    assert("ReqwestQueryConfig"@.len() == 18);
    assert("RocksDBUnorderedGroupAddAggregatorConfig"@.len() == 40);
    assert("WarpIngestionServerConfig"@.len() == 25);
    assert("MqttPublisherConfig"@.len() == 19);
    assert("MqttSubscriberConfig"@.len() == 20);
    assert("DynamoDBWriterConfig"@.len() == 20);
    assert("S3WriterConfig"@.len() == 14);
    assert("SnsPublisherConfig"@.len() == 18);
    assert("SqsMessageReceiverConfig"@.len() == 24);
    assert("CqlWriterConfig"@[0] != "AvroDeserConfig"@[0]);
    assert("JsonDeserConfig"@[0] != "AvroDeserConfig"@[0]);
    assert("JsonDeserConfig"@[0] != "CqlWriterConfig"@[0]);
    assert("JsonSerConfig"@[0] != "AvroSerConfig"@[0]);
    assert("KafkaConsumerConfig"@[0] != "JsonRecordSerConfig"@[0]);
    assert("KafkaProducerConfig"@[0] != "JsonRecordSerConfig"@[0]);
    assert("KafkaProducerConfig"@[5] != "KafkaConsumerConfig"@[5]);
    assert("KubeLogReaderConfig"@[0] != "JsonRecordSerConfig"@[0]);
    assert("KubeLogReaderConfig"@[1] != "KafkaConsumerConfig"@[1]);
    assert("KubeLogReaderConfig"@[1] != "KafkaProducerConfig"@[1]);
    assert("RedisStringWriterConfig"@[0] != "CqlPreparedWriterConfig"@[0]);
    assert("RedisSubscriberConfig"@[0] != "KubeEventReaderConfig"@[0]);
    assert("ReqwestGetterConfig"@[0] != "JsonRecordSerConfig"@[0]);
    assert("ReqwestGetterConfig"@[0] != "KafkaConsumerConfig"@[0]);
    assert("ReqwestGetterConfig"@[0] != "KafkaProducerConfig"@[0]);
    assert("ReqwestGetterConfig"@[0] != "KubeLogReaderConfig"@[0]);
    assert("ReqwestPosterConfig"@[0] != "JsonRecordSerConfig"@[0]);
    assert("ReqwestPosterConfig"@[0] != "KafkaConsumerConfig"@[0]);
    assert("ReqwestPosterConfig"@[0] != "KafkaProducerConfig"@[0]);
    assert("ReqwestPosterConfig"@[0] != "KubeLogReaderConfig"@[0]);
    assert("ReqwestPosterConfig"@[7] != "ReqwestGetterConfig"@[7]);
    assert("WarpIngestionServerConfig"@[0] != "MySQLPreparedWriterConfig"@[0]);
    assert("MqttPublisherConfig"@[0] != "JsonRecordSerConfig"@[0]);
    assert("MqttPublisherConfig"@[0] != "KafkaConsumerConfig"@[0]);
    assert("MqttPublisherConfig"@[0] != "KafkaProducerConfig"@[0]);
    assert("MqttPublisherConfig"@[0] != "KubeLogReaderConfig"@[0]);
    assert("MqttPublisherConfig"@[0] != "ReqwestGetterConfig"@[0]);
    assert("MqttPublisherConfig"@[0] != "ReqwestPosterConfig"@[0]);
    assert("MqttSubscriberConfig"@[0] != "RedisPublisherConfig"@[0]);
    assert("DynamoDBWriterConfig"@[0] != "RedisPublisherConfig"@[0]);
    assert("DynamoDBWriterConfig"@[0] != "MqttSubscriberConfig"@[0]);
    assert("S3WriterConfig"@[0] != "CsvDeserConfig"@[0]);
    assert("SnsPublisherConfig"@[0] != "ReqwestQueryConfig"@[0]);
    assert("SqsMessageReceiverConfig"@[0] != "PsqlPreparedWriterConfig"@[0]);
}

impl UseCrate for Pipe {
    open spec fn used_crate(&self) -> Option<DependencyView> {
        pipe_crate(self.config.ty@)
    }

    fn get_crate(&self) -> (r: Option<Dependency>) {
        let ty = self.config.ty.as_str();
        if str_eq(ty, "AvroDeserConfig") || str_eq(ty, "AvroSerConfig") {
            Some(default_avro_dependency())
        } else if str_eq(ty, "CqlPreparedWriterConfig") || str_eq(ty, "CqlWriterConfig") {
            Some(default_cql_dependency())
        } else if str_eq(ty, "CsvDeserConfig") || str_eq(ty, "CsvSerConfig") {
            Some(default_csv_dependency())
        } else if str_eq(ty, "JsonDeserConfig") || str_eq(ty, "JsonRecordSerConfig") || str_eq(
            ty,
            "JsonSerConfig",
        ) {
            Some(default_json_dependency())
        } else if str_eq(ty, "KafkaConsumerConfig") || str_eq(ty, "KafkaPartitionedProducerConfig")
            || str_eq(ty, "KafkaProducerConfig") {
            Some(default_kafka_dependency())
        } else if str_eq(ty, "KubeEventReaderConfig") || str_eq(ty, "KubeLogReaderConfig") {
            Some(default_kube_dependency())
        } else if str_eq(ty, "MySQLPreparedWriterConfig") || str_eq(ty, "MySQLWriterConfig") {
            Some(default_mysql_dependency())
        } else if str_eq(ty, "PsqlPreparedWriterConfig") || str_eq(ty, "PsqlWriterConfig") {
            Some(default_psql_dependency())
        } else if str_eq(ty, "RedisPublisherConfig") || str_eq(ty, "RedisStringBatchWriterConfig")
            || str_eq(ty, "RedisStringWriterConfig") || str_eq(ty, "RedisSubscriberConfig")
            || str_eq(ty, "RedisUnorderedGroupAddAggregatorConfig") {
            Some(default_redis_dependency())
        } else if str_eq(ty, "ReqwestGetterConfig") || str_eq(ty, "ReqwestPosterConfig") || str_eq(
            ty,
            "ReqwestQueryConfig",
        ) {
            Some(default_reqwest_dependency())
        } else if str_eq(ty, "RocksDBUnorderedGroupAddAggregatorConfig") {
            Some(default_rocksdb_dependency())
        } else if str_eq(ty, "WarpIngestionServerConfig") {
            Some(default_warp_dependency())
        } else if str_eq(ty, "DynamoDBWriterConfig") {
            Some(default_dynamodb_dependency())
        } else if str_eq(ty, "S3WriterConfig") {
            Some(default_s3_dependency())
        } else if str_eq(ty, "SnsPublisherConfig") {
            Some(default_sns_dependency())
        } else if str_eq(ty, "SqsMessageReceiverConfig") {
            Some(default_sqs_dependency())
        } else if str_eq(ty, "MqttPublisherConfig") || str_eq(ty, "MqttSubscriberConfig") {
            Some(default_mqtt_dependency())
        } else {
            None
        }
    }
}

/// Keeping the names that pass `keep` a second time keeps them all.
proof fn lemma_filter_twice(s: Seq<Seq<char>>, keep: spec_fn(Seq<char>) -> bool)
    ensures
        s.filter(keep).filter(keep) == s.filter(keep),
    decreases s.len(),
{
    reveal_with_fuel(Seq::<_>::filter, 1);
    if s.len() > 0 {
        lemma_filter_twice(s.drop_last(), keep);
        let f = s.drop_last().filter(keep);
        if keep(s.last()) {
            let g = f.push(s.last());
            assert(g.drop_last() =~= f);
            assert(g.last() == s.last());
            assert(g.filter(keep) == g.drop_last().filter(keep).push(g.last()));
        }
    }
}

/// Filtering a pipe's upstreams by the same names twice leaves what one
/// filtering leaves.
pub proof fn lemma_filter_upstreams_idempotent(p: Pipe, names: Seq<Seq<char>>)
    ensures
        pipe_upstreams(p).filter(|u: Seq<char>| names.contains(u)).filter(|u: Seq<char>| names.contains(u))
            == pipe_upstreams(p).filter(|u: Seq<char>| names.contains(u)),
{
    lemma_filter_twice(pipe_upstreams(p), |u: Seq<char>| names.contains(u));
}

} // verus!
