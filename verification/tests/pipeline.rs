use explorator::cli::{
    classify_seed, export_job, find_issues, plugin_header, plugin_row, serve, unknown_plugin,
    verdict, ExportFormat,
};
use explorator::document::Document;
use explorator::entity::EntityType;
use explorator::error::Error;
use explorator::json::Json;
use explorator::pipeline::{PipelineDef, SEED_INPUT};
use explorator::plugin::{PluginConfig, PluginRegistry, ReconPlugin};
use explorator::plugins::{register_all, Plugin};

const EXAMPLE: &str = r#"
        [pipeline]
        name = "full-domain-recon"
        description = "Complete domain reconnaissance pipeline"
        concurrency = 4

        [[pipeline.stages]]
        name = "subdomains"
        plugin = "subfinder"
        input = "seed"

        [[pipeline.stages]]
        name = "dns-resolve"
        plugin = "dnsx"
        input = "subdomains"
        config = { record_types = ["A", "AAAA", "CNAME", "MX"] }
    "#;

#[test]
fn parses_example_pipeline() {
    let pipeline = PipelineDef::parse(EXAMPLE, "").unwrap();
    assert_eq!(pipeline.name, "full-domain-recon");
    assert_eq!(pipeline.concurrency, 4);
    assert_eq!(pipeline.stages.len(), 2);
    assert_eq!(pipeline.stages[1].dependencies(), vec!["subdomains"]);
}

#[test]
fn rejects_duplicate_stage_names() {
    let toml_str = r#"
            [pipeline]
            name = "bad"
            [[pipeline.stages]]
            name = "dup"
            plugin = "subfinder"
            input = "seed"
            [[pipeline.stages]]
            name = "dup"
            plugin = "dnsx"
            input = "seed"
        "#;
    assert!(PipelineDef::parse(toml_str, "").is_err());
    assert_eq!(
        PipelineDef::parse(toml_str, "").unwrap_err().to_string(),
        "invalid pipeline definition: duplicate stage name 'dup'"
    );
}

#[test]
fn rejects_unknown_dependency() {
    let toml_str = r#"
            [pipeline]
            name = "bad"
            [[pipeline.stages]]
            name = "only"
            plugin = "subfinder"
            input = "does-not-exist"
        "#;
    assert!(PipelineDef::parse(toml_str, "").is_err());
    assert_eq!(
        PipelineDef::parse(toml_str, "").unwrap_err().to_string(),
        "invalid pipeline definition: stage 'only' depends on unknown stage 'does-not-exist'"
    );
}

#[test]
fn fills_in_what_is_left_out() {
    let toml_str = r#"
            [pipeline]
            name = "small"
            unknown = 1
            [[pipeline.stages]]
            name = "only"
            plugin = "subfinder"
            input = "seed"
        "#;
    let pipeline = PipelineDef::parse(toml_str, "").unwrap();
    assert_eq!(pipeline.description, None);
    assert_eq!(pipeline.concurrency, 4);
    let stage = pipeline.stage("only").unwrap();
    assert!(stage.depends_on.is_empty());
    assert!(stage.config.entries.is_empty());
    assert_eq!(stage.timeout_secs, None);
    assert_eq!(stage.retries, 0);
    assert!(stage.dependencies().is_empty());
    assert!(pipeline.stage("other").is_none());
    assert!(pipeline.within_limits());
    assert_eq!(SEED_INPUT, "seed");
}

#[test]
fn reads_every_field_of_a_stage() {
    let toml_str = r#"
            [pipeline]
            name = "full"
            concurrency = 0
            [[pipeline.stages]]
            name = "a"
            plugin = "p"
            input = "seed"
            [[pipeline.stages]]
            name = "b"
            plugin = "p"
            input = "a"
            depends_on = ["a", "seed"]
            timeout_secs = 30
            retries = 2
        "#;
    let pipeline = PipelineDef::parse(toml_str, "").unwrap();
    assert_eq!(pipeline.concurrency, 0);
    let b = &pipeline.stages[1];
    assert_eq!(b.depends_on, vec!["a", "seed"]);
    assert_eq!(b.dependencies(), vec!["a", "seed", "a"]);
    assert_eq!(b.timeout_secs, Some(30));
    assert_eq!(b.retries, 2);
}

fn parse_error(toml_str: &str) -> String {
    match PipelineDef::parse(toml_str, "not a pipeline") {
        Err(Error::PipelineParse(m)) => m,
        Err(e) => panic!("expected a parse error, got {e:?}"),
        Ok(_) => panic!("expected a parse error"),
    }
}

#[test]
fn unreadable_text_is_complained_about_by_the_reader() {
    let m = parse_error("[pipeline");
    assert!(m.starts_with("TOML parse error at line 1, column 10\n"), "{m}");
    assert_eq!(
        PipelineDef::parse("[pipeline", "").unwrap_err().to_string(),
        format!("failed to parse pipeline: {m}")
    );
}

#[test]
fn rejects_documents_of_the_wrong_shape() {
    for toml_str in [
        "",
        "pipeline = 3",
        "[pipeline]",
        "[pipeline]\nname = 1",
        "[pipeline]\nname = \"x\"",
        "[pipeline]\nname = \"x\"\nstages = 1",
        "[pipeline]\nname = \"x\"\ndescription = 1\nstages = []",
        "[pipeline]\nname = \"x\"\nconcurrency = -1\nstages = []",
        "[pipeline]\nname = \"x\"\nconcurrency = inf\nstages = []",
        "[pipeline]\nname = \"x\"\nstages = [{ name = \"a\", plugin = \"p\" }]",
        "[pipeline]\nname = \"x\"\nstages = [{ name = \"a\", plugin = \"p\", input = \"seed\", retries = 4294967296 }]",
        "[pipeline]\nname = \"x\"\nstages = [{ name = \"a\", plugin = \"p\", input = \"seed\", depends_on = [1] }]",
        "[pipeline]\nname = \"x\"\nstages = [{ name = \"a\", plugin = \"p\", input = \"seed\", config = 1 }]",
    ] {
        assert_eq!(parse_error(toml_str), "not a pipeline", "{toml_str}");
    }
    assert_eq!(
        PipelineDef::parse("[pipeline]\nname = \"x\"\nstages = []", "not a pipeline")
            .unwrap_err()
            .to_string(),
        "invalid pipeline definition: pipeline has no stages"
    );
}

#[test]
fn a_record_may_be_written_as_an_array() {
    let toml_str = r#"
            pipeline = ["x", "about", 2, [["a", "p", "seed", [], {}, 5]]]
        "#;
    let pipeline = PipelineDef::parse(toml_str, "").unwrap();
    assert_eq!(pipeline.name, "x");
    assert_eq!(pipeline.description, Some("about".to_string()));
    assert_eq!(pipeline.concurrency, 2);
    assert_eq!(pipeline.stages[0].timeout_secs, Some(5));
    assert_eq!(
        parse_error("pipeline = [\"x\", \"about\", 2, [[\"a\", \"p\", \"seed\"]]]"),
        "not a pipeline"
    );
}

#[test]
fn settings_are_shown_in_json() {
    let toml_str = r#"
            [pipeline]
            name = "x"
            [[pipeline.stages]]
            name = "a"
            plugin = "p"
            input = "seed"
            config = { s = "t", n = 7, m = -7, f = 1.5, i = inf, b = true, d = 1979-05-27, l = [1, "x"] }
        "#;
    let pipeline = PipelineDef::parse(toml_str, "").unwrap();
    let config = PluginConfig::from_toml_table(pipeline.stages[0].config.clone());
    assert_eq!(config.get_str("s"), Some("t"));
    assert_eq!(config.get_u64("n"), Some(7));
    assert_eq!(config.get("m"), Some(&Json::NegInt(-7)));
    assert_eq!(config.get("f"), Some(&Json::Float(1.5f64.to_bits())));
    assert_eq!(config.get("i"), Some(&Json::Null));
    assert_eq!(config.get_bool("b"), Some(true));
    assert_eq!(
        config.get("d").unwrap().get("$__toml_private_datetime"),
        Some(&Json::Text("1979-05-27".to_string()))
    );
    assert_eq!(config.get_array("l").unwrap().len(), 2);
    assert_eq!(config.get("none"), None);
    assert_eq!(config.get_str("n"), None);
    assert!(PluginConfig::default().get("s").is_none());
}

fn one_stage(config: &str) -> String {
    format!(
        "[pipeline]\nname = \"x\"\n[[pipeline.stages]]\nname = \"a\"\nplugin = \"p\"\ninput = \"seed\"\n{config}\n"
    )
}

#[test]
fn a_table_that_begins_like_a_date_is_a_date_only_as_a_setting() {
    let unknown = one_stage("other = { \"$__toml_private_datetime\" = \"never\" }");
    assert!(PipelineDef::parse(&unknown, "").is_ok());

    let whole = one_stage("config = { \"$__toml_private_datetime\" = \"never\", n = 1 }");
    let pipeline = PipelineDef::parse(&whole, "").unwrap();
    let config = PluginConfig::from_toml_table(pipeline.stages[0].config.clone());
    assert_eq!(config.get_str("$__toml_private_datetime"), Some("never"));
    assert_eq!(config.get_u64("n"), Some(1));

    let setting = one_stage("config = { d = { \"$__toml_private_datetime\" = \"1979-05-27 07:32:00Z\", n = 1 } }");
    let pipeline = PipelineDef::parse(&setting, "").unwrap();
    let config = PluginConfig::from_toml_table(pipeline.stages[0].config.clone());
    let d = config.get("d").unwrap();
    assert_eq!(d.get("$__toml_private_datetime").unwrap().as_str(), Some("1979-05-27T07:32:00Z"));
    assert!(d.get("n").is_none());

    let later = one_stage("config = { d = { n = 1, \"$__toml_private_datetime\" = \"never\" } }");
    let pipeline = PipelineDef::parse(&later, "").unwrap();
    let config = PluginConfig::from_toml_table(pipeline.stages[0].config.clone());
    let d = config.get("d").unwrap();
    assert_eq!(d.get("$__toml_private_datetime").unwrap().as_str(), Some("never"));
    assert_eq!(d.get("n"), Some(&Json::PosInt(1)));

    for bad in [
        "config = { d = { \"$__toml_private_datetime\" = \"never\" } }",
        "config = { d = { \"$__toml_private_datetime\" = 1 } }",
        "config = { l = [{ \"$__toml_private_datetime\" = \"never\" }] }",
    ] {
        assert_eq!(parse_error(&one_stage(bad)), "not a pipeline", "{bad}");
    }
}

#[test]
fn a_document_is_read_by_field() {
    let doc = Document::Table(vec![("a".to_string(), Document::Integer(1))]);
    assert!(matches!(doc.field(0, "a"), Some(Document::Integer(1))));
    assert!(doc.field(0, "b").is_none());
    let list = Document::Array(vec![Document::Boolean(true)]);
    assert!(matches!(list.field(0, "x"), Some(Document::Boolean(true))));
    assert!(list.field(1, "x").is_none());
}

fn registry() -> PluginRegistry<Plugin> {
    let mut registry = PluginRegistry::new();
    register_all(&mut registry);
    registry
}

#[test]
fn every_plugin_is_registered() {
    let mut table = registry();
    register_all(&mut table);
    let names: Vec<&str> = table.iter().iter().map(|p| p.name()).collect();
    assert_eq!(
        names,
        vec!["subfinder", "dnsx", "whois", "certsh", "httpx", "portscan", "katana", "nuclei"]
    );
    assert!(table.contains("katana"));
    assert!(!table.contains("nmap"));
    let dnsx = table.get("dnsx").ok().unwrap();
    assert_eq!(dnsx.required_binary(), "none (native DNS resolver)");
    assert_eq!(dnsx.input_types(), vec![EntityType::Domain, EntityType::Subdomain]);
    assert_eq!(dnsx.output_types(), vec![EntityType::IpAddress]);
    assert!(dnsx.is_available(false));
    assert!(!table.get("nuclei").ok().unwrap().is_available(false));
    match table.get("nmap") {
        Err(Error::UnknownPlugin(name)) => assert_eq!(name, "nmap"),
        _ => panic!("expected an unknown plugin"),
    }
}

#[test]
fn seeds_are_classified() {
    assert_eq!(classify_seed("192.0.2.1", true).entity_type, EntityType::IpAddress);
    assert_eq!(classify_seed("192.0.2.0/24", false).entity_type, EntityType::Cidr);
    let d = classify_seed("example.com", false);
    assert_eq!(d.entity_type, EntityType::Domain);
    assert_eq!(d.value, "example.com");
    assert_eq!(d.source, "seed");
}

#[test]
fn plugins_and_types_are_checked() {
    let good = PipelineDef::parse(EXAMPLE, "").unwrap();
    let table = registry();
    assert!(unknown_plugin(&good, &table).is_none());
    let none = find_issues(&good, &table);
    assert!(none.is_empty());
    assert_eq!(
        verdict(&good, &none),
        Ok("pipeline 'full-domain-recon' is valid: 2 stage(s), plugins and types check out".to_string())
    );

    let toml_str = r#"
            [pipeline]
            name = "bad"
            [[pipeline.stages]]
            name = "a"
            plugin = "nmap"
            input = "seed"
            [[pipeline.stages]]
            name = "b"
            plugin = "dnsx"
            input = "seed"
            [[pipeline.stages]]
            name = "c"
            plugin = "httpx"
            input = "a"
            [[pipeline.stages]]
            name = "d"
            plugin = "dnsx"
            input = "b"
        "#;
    let bad = PipelineDef::parse(toml_str, "").unwrap();
    assert_eq!(
        unknown_plugin(&bad, &table),
        Some("stage 'a' references unknown plugin 'nmap'".to_string())
    );
    let issues = find_issues(&bad, &table);
    assert_eq!(
        issues,
        vec![
            "stage 'a': unknown plugin 'nmap'",
            "stage 'd': plugin 'dnsx' accepts [Domain, Subdomain] but upstream stage 'b' (plugin 'dnsx') produces [IpAddress]",
        ]
    );
    assert_eq!(
        verdict(&bad, &issues),
        Err("pipeline 'bad' failed validation (2 issue(s))".to_string())
    );
}

#[test]
fn an_unread_input_is_an_issue() {
    let mut pipeline = PipelineDef::parse(EXAMPLE, "").unwrap();
    pipeline.stages[1].input = "gone".to_string();
    assert_eq!(
        find_issues(&pipeline, &registry()),
        vec!["stage 'dns-resolve': input 'gone' is not a known stage"]
    );
}

#[test]
fn the_plugin_list_is_aligned() {
    assert_eq!(plugin_header(), format!("{:<12} {:<12} {:<10}", "PLUGIN", "BINARY", "AVAILABLE"));
    let table = registry();
    let katana = table.get("katana").ok().unwrap();
    assert_eq!(plugin_row(katana, false), format!("{:<12} {:<12} {:<10}", "katana", "katana", "no"));
    let whois = table.get("whois").ok().unwrap();
    assert_eq!(
        plugin_row(whois, false),
        format!("{:<12} {:<12} {:<10}", "whois", "none (native TCP client)", "yes")
    );
}

#[test]
fn export_and_serve_always_fail() {
    assert!(export_job("1", ExportFormat::Csv).unwrap_err().starts_with("export is not"));
    assert!(serve("127.0.0.1:8080").unwrap_err().starts_with("serve is not"));
}
