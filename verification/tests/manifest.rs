use pipegen::error::Error;
use pipegen::models::app::App;
use pipegen::models::context::{ContextStore, ContextStoreConfig};
use pipegen::models::data::{DataField, DataType, Object};
use pipegen::models::meta::Meta;
use pipegen::models::pipe::{Pipe, PipeConfig, PipeType};
use pipegen::models::package::{default_dependencies, default_env_log_package, default_log_package, default_pipebase_package, default_tokio_package};
use pipegen::models::schema::{Field, FieldType, Structure};
use pipegen::ops::validate::{is_camel_case, is_snake_case, pipes_graph};
use pipegen::models::dependency::DependencyBuilder;
use pipegen::models::function::{Block, FunctionBuilder};
use pipegen::models::Entity;
use pipegen::ops::describe::PipeIdsDisplay;
use pipegen::ops::paths::GraphPaths;
use pipegen::ops::upstream::PipeDependencyValidator;
use pipegen::text::snake_to_camel;

fn config(ty: &str) -> PipeConfig {
    PipeConfig { ty: ty.to_string(), path: None }
}

fn pipe(name: &str, ty: PipeType, cfg: &str, upstreams: &[&str], output: Option<DataType>) -> Pipe {
    let ups: Vec<String> = upstreams.iter().map(|u| u.to_string()).collect();
    let ups = if ups.is_empty() { None } else { Some(ups) };
    Pipe::new(name.to_string(), ty, config(cfg), None, ups, output)
}

fn field(name: Option<&str>, ty: DataType) -> DataField {
    DataField::new(name.map(|n| n.to_string()), ty, None, None, None, None)
}

fn object(ty: &str, fields: Vec<DataField>) -> Object {
    Object { ty: ty.to_string(), metas: None, fields }
}

fn app(pipes: Vec<Pipe>, objects: Vec<Object>, cstores: Vec<ContextStore>) -> App {
    App::new("timer".to_string(), None, None, Some(cstores), None, pipes, Some(objects))
}

fn timer_tick_pipes() -> Vec<Pipe> {
    vec![
        pipe("timer1", PipeType::Poller, "TimerConfig", &[], Some(DataType::UnsignedLongLong)),
        pipe("timer2", PipeType::Poller, "TimerConfig", &[], Some(DataType::UnsignedLongLong)),
        pipe("printer", PipeType::Exporter, "PrinterConfig", &["timer1", "timer2"], None),
    ]
}

fn timer_tick_app() -> App {
    app(timer_tick_pipes(), vec![], vec![])
}

fn expect_invalid(a: &App) -> String {
    let e = a.validate().expect_err("expect invalid");
    let text = e.to_string();
    println!("{}", text);
    text
}

#[test]
fn validate_test_bad_name_case_pipe() {
    let a = app(
        vec![
            pipe("TimerOne", PipeType::Poller, "TimerConfig", &[], Some(DataType::UnsignedLongLong)),
            pipe("printer", PipeType::Exporter, "PrinterConfig", &["TimerOne"], None),
        ],
        vec![],
        vec![],
    );
    let text = expect_invalid(&a);
    assert_eq!(text, "use snake_case at pipes[0].name");
}

#[test]
fn test_duplicate_name_pipe() {
    let a = app(
        vec![
            pipe("timer", PipeType::Poller, "TimerConfig", &[], Some(DataType::UnsignedLongLong)),
            pipe("timer", PipeType::Poller, "TimerConfig", &[], Some(DataType::UnsignedLongLong)),
            pipe("printer", PipeType::Exporter, "PrinterConfig", &["timer"], None),
        ],
        vec![],
        vec![],
    );
    let text = expect_invalid(&a);
    assert_eq!(text, "duplicated at pipes[1].name");
}

#[test]
fn validate_test_invalid_source_dependency_pipe() {
    let a = app(
        vec![
            pipe("timer1", PipeType::Poller, "TimerConfig", &[], Some(DataType::UnsignedLongLong)),
            pipe("timer2", PipeType::Poller, "TimerConfig", &["timer1"], Some(DataType::UnsignedLongLong)),
            pipe("printer", PipeType::Exporter, "PrinterConfig", &["timer2"], None),
        ],
        vec![],
        vec![],
    );
    let text = expect_invalid(&a);
    assert_eq!(text, "found invalid upstream for source pipe at pipes[1].upstreams");
}

#[test]
fn validate_test_non_exists_upstream_pipe() {
    let a = app(
        vec![
            pipe("timer1", PipeType::Poller, "TimerConfig", &[], Some(DataType::UnsignedLongLong)),
            pipe("printer", PipeType::Exporter, "PrinterConfig", &["timer1", "timer3"], None),
        ],
        vec![],
        vec![],
    );
    let text = expect_invalid(&a);
    assert_eq!(text, "upstream does not exists at pipes[1].upstreams");
}

#[test]
fn test_no_upstream_downstream_pipe() {
    let a = app(
        vec![
            pipe("timer1", PipeType::Poller, "TimerConfig", &[], Some(DataType::UnsignedLongLong)),
            pipe("printer", PipeType::Exporter, "PrinterConfig", &[], None),
        ],
        vec![],
        vec![],
    );
    let text = expect_invalid(&a);
    assert_eq!(text, "no upstream found for downstream pipe at pipes[1].upstreams");
}

#[test]
fn validate_test_cycle_dependency_pipe() {
    let a = app(
        vec![
            pipe("timer", PipeType::Poller, "TimerConfig", &[], Some(DataType::UnsignedLongLong)),
            pipe("mapper1", PipeType::Mapper, "MapperConfig", &["timer", "mapper2"], Some(DataType::UnsignedLongLong)),
            pipe("mapper2", PipeType::Mapper, "MapperConfig", &["mapper1"], Some(DataType::UnsignedLongLong)),
            pipe("printer", PipeType::Exporter, "PrinterConfig", &["mapper2"], None),
        ],
        vec![],
        vec![],
    );
    let text = expect_invalid(&a);
    assert_eq!(text, "cycle detected at pipes[1],\ncycle detected at pipes[2],\ncycle detected at pipes[3]");
}

#[test]
fn test_bad_object_ty_case_pipe() {
    let a = app(
        timer_tick_pipes(),
        vec![object("record", vec![field(Some("key"), DataType::String)])],
        vec![],
    );
    let text = expect_invalid(&a);
    assert_eq!(text, "use CamelCase at objects[0].ty");
}

#[test]
fn test_duplicate_object_ty_pipe() {
    let a = app(
        timer_tick_pipes(),
        vec![
            object("Record", vec![field(Some("key"), DataType::String)]),
            object("Record", vec![field(Some("value"), DataType::Integer)]),
        ],
        vec![],
    );
    let text = expect_invalid(&a);
    assert_eq!(text, "duplicated at objects[1].ty");
}

#[test]
fn test_unnamed_data_field_pipe() {
    let a = app(
        timer_tick_pipes(),
        vec![object("Record", vec![field(Some("key"), DataType::String), field(None, DataType::Integer)])],
        vec![],
    );
    let text = expect_invalid(&a);
    assert_eq!(text, "empty at objects[0].fields[1].name");
}

#[test]
fn test_duplicate_data_field_name_pipe() {
    let a = app(
        timer_tick_pipes(),
        vec![object("Record", vec![field(Some("key"), DataType::String), field(Some("key"), DataType::Integer)])],
        vec![],
    );
    let text = expect_invalid(&a);
    assert_eq!(text, "duplicate at objects[0].fields[1].name");
}

#[test]
fn test_non_exists_object_pipe() {
    let a = app(
        timer_tick_pipes(),
        vec![object(
            "Record",
            vec![field(Some("key"), DataType::String), field(Some("inner"), DataType::Object("Missing".to_string()))],
        )],
        vec![],
    );
    let text = expect_invalid(&a);
    assert_eq!(text, "object dependency not found at objects[0].fields[0]");
}

#[test]
fn test_invalid_exporter_output() {
    let a = app(
        vec![
            pipe("timer1", PipeType::Poller, "TimerConfig", &[], Some(DataType::UnsignedLongLong)),
            pipe("printer", PipeType::Exporter, "PrinterConfig", &["timer1"], Some(DataType::String)),
        ],
        vec![],
        vec![],
    );
    let text = expect_invalid(&a);
    assert_eq!(text, "found invalid output for sink pipe at pipes[1].output");
}

#[test]
fn test_pipe_output_not_found() {
    let a = app(
        vec![
            pipe("timer1", PipeType::Poller, "TimerConfig", &[], None),
            pipe("printer", PipeType::Exporter, "PrinterConfig", &["timer1"], None),
        ],
        vec![],
        vec![],
    );
    let text = expect_invalid(&a);
    assert_eq!(text, "pipe output not found at pipes[0].output");
}

#[test]
fn describe_test_describe_timer_tick_pipe() {
    let a = timer_tick_app();
    a.validate().expect("expect valid");
    let results = a.describe();
    for result in &results {
        println!("{}", result)
    }
    assert_eq!(results, vec!["pipe: timer1, timer2, printer".to_string()]);
    let graph = a.describe_pipe_graph();
    assert_eq!(
        graph,
        vec![
            "source: timer1, timer2".to_string(),
            "sink: printer".to_string(),
            "union: timer1, timer2, printer".to_string(),
        ]
    );
}

#[test]
fn describe_test_describe_timer_tick_pipeline() {
    let a = timer_tick_app();
    a.validate().expect("expect valid");
    let pipelines = a.describe_pipelines("printer").expect("pipelines");
    assert_eq!(2, pipelines.len());
    for pipeline in &pipelines {
        println!("{}", pipeline)
    }
    assert!(pipelines.contains(&"pipeline: timer1(u128) -> printer".to_string()));
    assert!(pipelines.contains(&"pipeline: timer2(u128) -> printer".to_string()));
}

#[test]
fn describe_unknown_pipe_is_refused() {
    let a = timer_tick_app();
    match a.describe_pipelines("nothing") {
        Err(Error::Api(m)) => assert_eq!(m, "pipe nothing not exists"),
        _ => panic!("expected an error"),
    }
    match a.describe_pipe("nothing") {
        Err(Error::Api(m)) => assert_eq!(m, "pipe nothing not exists"),
        _ => panic!("expected an error"),
    }
}

#[test]
fn valid_context_stores_and_bad_ones() {
    let store = ContextStore::new("Store".to_string(), ContextStoreConfig { ty: "WarpContextServerConfig".to_string(), path: None });
    let a = app(timer_tick_pipes(), vec![], vec![store]);
    let text = expect_invalid(&a);
    assert_eq!(text, "use snake_case at cstores[0].name");
    let store = ContextStore::new("store".to_string(), ContextStoreConfig { ty: "WarpContextServerConfig".to_string(), path: None });
    let a = app(timer_tick_pipes(), vec![], vec![store]);
    assert!(a.validate().is_ok());
}

#[test]
fn generate_test_print_timer_tick_pipe() {
    let a = timer_tick_app();
    a.validate().expect("expect valid");
    let code = a.generate();
    println!("{}", code);
    assert!(code.starts_with("mod timer {\n"));
    assert!(code.contains("name = \"timer1\""));
    assert!(code.contains("upstream = \"timer1, timer2\""));
    assert!(code.contains("async fn main()"));
}

#[test]
fn generate_test_complex_object_pipe() {
    let inner = object("Inner", vec![field(Some("value"), DataType::Integer)]);
    let outer = object(
        "Outer",
        vec![
            field(Some("inner"), DataType::Object("Inner".to_string())),
            field(Some("values"), DataType::Vec { ty: Box::new(DataType::Object("Inner".to_string())) }),
        ],
    );
    let a = app(
        vec![
            pipe("timer", PipeType::Poller, "TimerConfig", &[], Some(DataType::Object("Outer".to_string()))),
            pipe("printer", PipeType::Exporter, "PrinterConfig", &["timer"], None),
        ],
        vec![inner, outer],
        vec![],
    );
    a.validate().expect("expect valid");
    let code = a.generate();
    println!("{}", code);
    assert!(code.contains("pub struct Outer"));
    assert!(code.contains("std::vec::Vec<Inner>"));
}

#[test]
fn generate_test_projection_pipe() {
    let record = object("Record", vec![field(Some("key"), DataType::String), field(Some("value"), DataType::Integer)]);
    let a = app(
        vec![
            pipe("timer", PipeType::Poller, "TimerConfig", &[], Some(DataType::Object("Record".to_string()))),
            pipe("project", PipeType::Mapper, "ProjectionConfig", &["timer"], Some(DataType::Object("Record".to_string()))),
            pipe("printer", PipeType::Exporter, "PrinterConfig", &["project"], None),
        ],
        vec![record],
        vec![],
    );
    a.validate().expect("expect valid");
    let code = a.generate();
    println!("{}", code);
    assert!(code.contains("name = \"project\""));
}

#[test]
fn test_object_metas() {
    let record = Object::new(
        "Record".to_string(),
        vec![Meta::Path { name: "derive(Clone)".to_string() }],
        vec![field(Some("key"), DataType::String)],
    );
    let a = app(timer_tick_pipes(), vec![record], vec![]);
    a.validate().expect("expect valid");
    let code = a.generate();
    println!("{}", code);
    assert!(code.contains("pub struct Record"));
}

#[test]
fn generate_pipes_keeps_component() {
    let mut pipes = timer_tick_pipes();
    pipes.push(pipe("other", PipeType::Poller, "TimerConfig", &[], Some(DataType::String)));
    pipes.push(pipe("sink", PipeType::Exporter, "PrinterConfig", &["other"], None));
    let a = app(pipes, vec![], vec![]);
    a.validate().expect("expect valid");
    let code = a.generate_pipes("printer").expect("component");
    assert!(code.contains("name = \"timer1\""));
    assert!(!code.contains("name = \"other\""));
    assert!(a.generate_pipes("missing").is_err());
}

#[test]
fn test_bad_name_case_pipe() {
    let a = app(
        vec![
            pipe("timer", PipeType::Poller, "TimerConfig", &[], Some(DataType::UnsignedLongLong)),
            pipe("Printer", PipeType::Exporter, "PrinterConfig", &["timer"], None),
        ],
        vec![],
        vec![],
    );
    let e = a.validate_pipes().expect_err("expect invalid");
    assert_eq!(e.to_string(), "use snake_case at pipes[1].name");
}

#[test]
fn test_invalid_source_dependency_pipe() {
    let a = app(
        vec![
            pipe("listener", PipeType::Listener, "ListenerConfig", &["timer"], Some(DataType::String)),
            pipe("timer", PipeType::Poller, "TimerConfig", &[], Some(DataType::String)),
            pipe("printer", PipeType::Exporter, "PrinterConfig", &["listener"], None),
        ],
        vec![],
        vec![],
    );
    let e = a.validate_pipes().expect_err("expect invalid");
    assert_eq!(e.to_string(), "found invalid upstream for source pipe at pipes[0].upstreams");
}

#[test]
fn test_non_exists_upstream_pipe() {
    let a = app(
        vec![pipe("printer", PipeType::Exporter, "PrinterConfig", &["timer"], None)],
        vec![],
        vec![],
    );
    let e = a.validate_pipes().expect_err("expect invalid");
    assert_eq!(e.to_string(), "upstream does not exists at pipes[0].upstreams");
}

#[test]
fn test_cycle_dependency_pipe() {
    let a = app(
        vec![
            pipe("timer", PipeType::Poller, "TimerConfig", &[], Some(DataType::String)),
            pipe("loop_back", PipeType::Mapper, "MapperConfig", &["timer", "loop_back"], Some(DataType::String)),
            pipe("printer", PipeType::Exporter, "PrinterConfig", &["timer"], None),
        ],
        vec![],
        vec![],
    );
    let e = a.validate_pipes().expect_err("expect invalid");
    assert_eq!(e.to_string(), "cycle detected at pipes[1]");
}

#[test]
fn test_analyze_timer_tick_pipe() {
    let a = timer_tick_app();
    a.validate().expect("expect valid");
    let text = a.analyze().expect("expect analyzable");
    println!("{}", text);
    assert_eq!(text, "source: 0, 1\nsink: 2\n\nunion 0: 0, 1, 2\n\n0: timer1\n1: timer2\n2: printer");
}

#[test]
fn analyze_two_parts() {
    let a = app(
        vec![
            pipe("timer1", PipeType::Poller, "TimerConfig", &[], Some(DataType::UnsignedLongLong)),
            pipe("printer1", PipeType::Exporter, "PrinterConfig", &["timer1"], None),
            pipe("printer2", PipeType::Exporter, "PrinterConfig", &["timer2"], None),
            pipe("timer2", PipeType::Poller, "TimerConfig", &[], Some(DataType::UnsignedLongLong)),
        ],
        vec![],
        vec![],
    );
    let text = a.analyze().expect("expect analyzable");
    assert_eq!(
        text,
        "source: 0, 3\nsink: 1, 2\n\nunion 0: 0, 1\nunion 2: 2, 3\n\n0: timer1\n1: printer1\n2: printer2\n3: timer2"
    );
}

#[test]
fn analyze_refuses_unknown_upstream_and_repeated_names() {
    let a = app(
        vec![pipe("printer", PipeType::Exporter, "PrinterConfig", &["timer"], None)],
        vec![],
        vec![],
    );
    assert!(a.analyze().is_none());
    let b = app(
        vec![
            pipe("timer", PipeType::Poller, "TimerConfig", &[], None),
            pipe("timer", PipeType::Poller, "TimerConfig", &[], None),
        ],
        vec![],
        vec![],
    );
    assert!(b.analyze().is_none());
}

#[test]
fn dependency_validator_accepts_timer_tick() {
    assert!(PipeDependencyValidator::do_validate(&timer_tick_pipes(), "pipes").is_ok());
}

#[test]
fn dependency_validator_reports_each_pipe() {
    let pipes = vec![
        pipe("timer1", PipeType::Poller, "TimerConfig", &["x"], None),
        pipe("mapper", PipeType::Mapper, "MapperConfig", &[], None),
        pipe("printer", PipeType::Exporter, "PrinterConfig", &["timer1", "timer3"], None),
    ];
    let e = PipeDependencyValidator::do_validate(&pipes, "pipes").expect_err("expect invalid");
    assert_eq!(
        e.to_string(),
        "found invalid upstream for source pipe at pipes[0].upstreams,\n\
         no upstream found for downstream pipe at pipes[1].upstreams,\n\
         upstream does not exists at pipes[2].upstreams"
    );
}

#[test]
fn dependency_validator_merges_repeated_names() {
    // The second `timer` is a mapper with an upstream: the name counts as a
    // mapper with that upstream at both positions.
    let pipes = vec![
        pipe("timer", PipeType::Poller, "TimerConfig", &[], None),
        pipe("timer", PipeType::Mapper, "MapperConfig", &["source"], None),
        pipe("source", PipeType::Poller, "TimerConfig", &[], None),
    ];
    assert!(PipeDependencyValidator::do_validate(&pipes, "pipes").is_ok());
    let pipes = vec![
        pipe("timer", PipeType::Mapper, "MapperConfig", &["source"], None),
        pipe("timer", PipeType::Poller, "TimerConfig", &[], None),
        pipe("source", PipeType::Poller, "TimerConfig", &[], None),
    ];
    let e = PipeDependencyValidator::do_validate(&pipes, "pipes").expect_err("expect invalid");
    assert_eq!(
        e.to_string(),
        "found invalid upstream for source pipe at pipes[0].upstreams,\n\
         found invalid upstream for source pipe at pipes[1].upstreams"
    );
}

#[test]
fn graph_paths_keep_each_pair() {
    let s = |v: &[&str]| -> Vec<String> { v.iter().map(|x| x.to_string()).collect() };
    let mut paths = GraphPaths::new();
    assert!(paths.get_paths("a", "b").is_none());
    paths.add_path("a", "b", s(&["a", "b"]));
    paths.add_path("a", "c", s(&["a", "c"]));
    paths.add_path("a", "b", s(&["a", "c", "b"]));
    assert_eq!(paths.get_paths("a", "b").unwrap(), vec![s(&["a", "b"]), s(&["a", "c", "b"])]);
    assert_eq!(paths.get_paths("a", "c").unwrap(), vec![s(&["a", "c"])]);
    assert!(paths.get_paths("b", "a").is_none());
}

#[test]
fn field_type_literals() {
    let f = Field { name: "xs".to_string(), ty: FieldType::UnsignedInteger, is_optional: true, is_scalar: true, size: Some(3) };
    assert_eq!(f.get_type_literal(), "Option<[u32; 3]>");
    let g = Field {
        name: "points".to_string(),
        ty: FieldType::Structure { name: "Point".to_string() },
        is_optional: false,
        is_scalar: true,
        size: None,
    };
    assert_eq!(g.get_type_literal(), "Vec<Point>");
    assert_eq!(g.list_dependency(), vec!["Point".to_string()]);
    assert_eq!(FieldType::Double.to_string(), "f64");
}

#[test]
fn structure_literal() {
    let s = Structure {
        name: "Pair".to_string(),
        fields: vec![
            Field { name: "a".to_string(), ty: FieldType::UnsignedInteger, is_optional: false, is_scalar: false, size: None },
            Field {
                name: "b".to_string(),
                ty: FieldType::Structure { name: "Inner".to_string() },
                is_optional: true,
                is_scalar: false,
                size: None,
            },
        ],
    };
    assert_eq!(s.to_literal(1), "    pub struct Pair {\n        pub a: u32,\n        pub b: Option<Inner>\n    }");
    assert_eq!(s.list_dependency(), vec!["Inner".to_string()]);
    assert_eq!(s.get_id(), "Pair");
}

#[test]
fn snake_to_camel_cases() {
    assert_eq!(snake_to_camel("foo_bar_baz"), "FooBarBaz");
    assert_eq!(snake_to_camel("__a_b"), "AB");
    assert_eq!(snake_to_camel("x1_y"), "X1Y");
    assert_eq!(snake_to_camel(""), "");
}

#[test]
fn pipe_meta_literals() {
    let p = pipe("printer", PipeType::Exporter, "PrinterConfig", &["timer1", "timer2"], None);
    assert_eq!(p.get_name_meta_literal(0), "name = \"printer\"");
    assert_eq!(p.get_type_meta_literal(1), "    ty = \"exporter\"");
    assert_eq!(p.get_config_meta_literal(0), "config(ty = \"PrinterConfig\")");
    assert_eq!(p.get_upstream_meta_literal(1).unwrap(), "    upstream = \"timer1, timer2\"");
    assert!(p.get_output_data_type_meta_literal(0).is_none());
    let t = Pipe::new(
        "timer".to_string(),
        PipeType::Poller,
        PipeConfig { ty: "TimerConfig".to_string(), path: Some("timer.yml".to_string()) },
        None,
        None,
        Some(DataType::UnsignedLongLong),
    );
    assert_eq!(t.get_config_meta_literal(0), "config(ty = \"TimerConfig\", path = \"timer.yml\")");
    assert!(t.get_upstream_meta_literal(0).is_none());
    assert_eq!(t.get_output_data_type_meta_literal(0).unwrap(), "output = \"u128\"");
}

#[test]
fn pipe_ids_display() {
    let d = PipeIdsDisplay {
        ids: vec!["a".to_string(), "b".to_string()],
        sep: " -> ".to_string(),
        label: Some("pipeline".to_string()),
    };
    assert_eq!(d.to_string(), "pipeline: a -> b");
}

#[test]
fn package_dependency_of_inited_app() {
    let mut a = timer_tick_app();
    a.init();
    assert_eq!(a.get_package_dependency().len(), a.get_dependencies().len());
    assert!(!a.get_package_dependency().is_empty());
}

#[test]
fn default_packages() {
    let tokio = default_tokio_package();
    assert_eq!(tokio.get_name(), "tokio");
    assert_eq!(tokio.get_version().as_deref(), Some("1.6.1"));
    assert_eq!(tokio.get_features(), Some(vec!["full".to_string()]));
    assert!(tokio.get_modules().is_empty());
    let pipebase = default_pipebase_package();
    assert_eq!(pipebase.get_name(), "pipebase");
    assert_eq!(default_log_package().get_name(), "log");
    assert_eq!(default_env_log_package().get_name(), "env_logger");
}

#[test]
fn amqp_plugin_dependency() {
    let d = pipegen::models::dependency::default_amqp_dependency();
    assert_eq!(d.get_name(), "pipeamqp");
    assert_eq!(d.get_version().as_deref(), Some("0.1.2"));
    assert_eq!(d.get_modules(), &vec!["pipeamqp::*".to_string()]);
}

#[test]
fn app_without_error_handler() {
    let a = timer_tick_app();
    assert!(a.get_error_handler().is_none());
    assert_eq!(a.get_pipes()[2].config.get_config_type(), "PrinterConfig");
}

#[test]
fn snake_case_refuses_leading_and_doubled_underscores() {
    assert!(is_snake_case("timer_tick", false));
    assert!(is_snake_case("timer1", false));
    assert!(is_snake_case("timer_", false));
    assert!(!is_snake_case("timer__tick", false));
    assert!(!is_snake_case("_timer", false));
    assert!(!is_snake_case("Timer", false));
    assert!(is_snake_case("TIMER_TICK", true));
    assert!(!is_snake_case("TIMER__TICK", true));
    let a = app(
        vec![
            pipe("timer__tick", PipeType::Poller, "TimerConfig", &[], Some(DataType::UnsignedLongLong)),
            pipe("printer", PipeType::Exporter, "PrinterConfig", &["timer__tick"], None),
        ],
        vec![],
        vec![],
    );
    assert_eq!(expect_invalid(&a), "use snake_case at pipes[0].name");
}

#[test]
fn camel_case_checks() {
    assert!(is_camel_case("TimerTick"));
    assert!(!is_camel_case("timerTick"));
    assert!(!is_camel_case("TTimer"));
}

#[test]
fn default_package_dependencies() {
    let ds = default_dependencies();
    let names: Vec<String> = ds.iter().map(|d| d.get_name()).collect();
    assert_eq!(names, vec!["pipebase", "tokio", "log", "env_logger", "serde"]);
    assert_eq!(ds[0].get_modules(), &vec!["pipebase::*".to_string()]);
    assert_eq!(ds[4].get_version().as_deref(), Some("1.0"));
    assert_eq!(ds[4].get_features(), Some(vec!["derive".to_string()]));
    assert_eq!(ds[4].get_modules(), &vec!["serde::Serialize".to_string(), "serde::Deserialize".to_string()]);
}

#[test]
fn dependency_builder_keeps_last_values() {
    let d = DependencyBuilder::new()
        .version("1".to_string())
        .name("a".to_string())
        .version("2".to_string())
        .modules(vec!["a::*".to_string()])
        .build();
    assert_eq!(d.get_name(), "a");
    assert_eq!(d.get_version().as_deref(), Some("2"));
    assert!(d.get_path().is_none());
    assert_eq!(d.get_modules(), &vec!["a::*".to_string()]);
}

#[test]
fn function_builder_keeps_last_values() {
    let f = FunctionBuilder::new()
        .name("first".to_string())
        .public(true)
        .name("main".to_string())
        .asynchronous(true)
        .public(false)
        .block(Block::new(vec![]))
        .build();
    assert_eq!(f.to_literal(0), FunctionBuilder::new()
        .name("main".to_string())
        .asynchronous(true)
        .block(Block::new(vec![]))
        .build()
        .to_literal(0));
}

#[test]
fn pipes_graph_has_every_pipe() {
    let g = pipes_graph(&timer_tick_pipes());
    assert!(g.has_pipe("timer1") && g.has_pipe("timer2") && g.has_pipe("printer"));
    assert_eq!(g.find_source_pipes(), vec!["timer1".to_string(), "timer2".to_string()]);
}
