use teebench::api::{TeebenchHttpAPI, TeebenchHttpsAPI};
use teebench::bits;
use teebench::client::{ClientConfiguration, ClientType, EvalMode};
use teebench::config::Config;
use teebench::entity::{Analyst, BenchmarkingConfig, Company};
use teebench::error::BenchmarkingError;
use teebench::input::{Input, InputVariable};
use teebench::message::{RspMsg, ServerStatus};
use teebench::output::{Output, OutputVariable};
use teebench::resolved::ResolvedValues;
use teebench::server_util::{ApiErrorResponse, VerifyRequest};
use teebench::variable::Variable;

#[test]
fn http_routes_render_the_full_target() {
    let api = TeebenchHttpAPI::new("teebench.xyz".to_string(), "8080".to_string());
    assert_eq!(api.setup(), "http://teebench.xyz:8080/api/setup");
    assert_eq!(api.attest(), "http://teebench.xyz:8080/api/attest");
}

#[test]
fn https_routes_render_the_full_target() {
    let api = TeebenchHttpsAPI::new("teebench.xyz".to_string(), "8443".to_string());
    assert_eq!(api.setup(), "https://teebench.xyz:8443/api/setup");
    assert_eq!(api.shutdown(), "https://teebench.xyz:8443/api/shutdown");
    assert_eq!(api.get_events(), "https://teebench.xyz:8443/api/events");
    assert_eq!(
        api.company_register(12345),
        "https://teebench.xyz:8443/api/company/register/12345"
    );
    assert_eq!(
        api.company_input_data(7),
        "https://teebench.xyz:8443/api/company/input_data/7"
    );
    assert_eq!(
        api.company_results(0),
        "https://teebench.xyz:8443/api/company/results/0"
    );
    assert_eq!(
        api.analyst_benchmark_config(),
        "https://teebench.xyz:8443/api/analyst/benchmark_config"
    );
    assert_eq!(
        api.analyst_company_status(340282366920938463463374607431768211455),
        "https://teebench.xyz:8443/api/analyst/company/340282366920938463463374607431768211455"
    );
    assert_eq!(
        api.analyst_enroll_company(),
        "https://teebench.xyz:8443/api/analyst/enroll_company"
    );
    assert_eq!(
        api.analyst_algorithms(),
        "https://teebench.xyz:8443/api/analyst/algorithms"
    );
    assert_eq!(
        api.analyst_benchmark(),
        "https://teebench.xyz:8443/api/analyst/benchmark"
    );
    assert_eq!(
        api.analyst_send_event(),
        "https://teebench.xyz:8443/api/analyst/event"
    );
}

#[test]
fn benchmarking_config_reads_back_its_parts() {
    let mut cfg = BenchmarkingConfig::new(
        "bench".to_string(),
        "a study".to_string(),
        5,
        false,
        vec!["Addition".to_string()],
    );
    assert_eq!(cfg.name(), "bench");
    assert_eq!(cfg.description(), "a study");
    assert_eq!(cfg.k_anonymity(), 5);
    assert!(!cfg.eval_mode());
    assert_eq!(cfg.offload(), &vec!["Addition".to_string()]);
    cfg.set_name("renamed".to_string());
    cfg.set_description("changed".to_string());
    cfg.set_k_anonymity(9);
    cfg.set_eval_mode(true);
    cfg.set_offload(Vec::new());
    assert_eq!(cfg.name(), "renamed");
    assert_eq!(cfg.description(), "changed");
    assert_eq!(cfg.k_anonymity(), 9);
    assert!(cfg.eval_mode());
    assert_eq!(cfg.offload().len(), 0);
}

#[test]
fn server_config_reads_back_its_parts() {
    let cfg = Config::new(
        "0.0.0.0".to_string(),
        "8080".to_string(),
        "8443".to_string(),
        2,
        4,
        10,
    );
    assert_eq!(cfg.host(), "0.0.0.0");
    assert_eq!(cfg.port(), "8080");
    assert_eq!(cfg.tls_port(), "8443");
    assert_eq!(cfg.http_workers(), 2);
    assert_eq!(cfg.https_workers(), 4);
    assert_eq!(cfg.shutdown_timeout(), 10);
}

#[test]
fn client_roles_follow_the_mode_and_identifier() {
    let company = ClientConfiguration::new(
        "host".to_string(),
        80,
        443,
        Vec::new(),
        (false, EvalMode::Enclave),
        None,
        Some(42),
    );
    assert!(matches!(company.role(), ClientType::Company(42)));
    assert_eq!(company.server_host(), "host");
    assert_eq!(company.server_http_port(), 80);
    assert_eq!(company.server_https_port(), 443);
    assert_eq!(company.eval_mode(), EvalMode::Enclave);
    assert!(company.offload().is_none());
    assert_eq!(company.paths().len(), 0);

    let analyst = ClientConfiguration::new(
        "host".to_string(),
        80,
        443,
        Vec::new(),
        (false, EvalMode::Enclave),
        None,
        None,
    );
    assert!(matches!(analyst.role(), ClientType::Analyst));

    let spectator = ClientConfiguration::new(
        "host".to_string(),
        80,
        443,
        Vec::new(),
        (true, EvalMode::Unencrypted),
        None,
        Some(42),
    );
    assert!(matches!(spectator.role(), ClientType::Spectator));
}

#[test]
fn messages_carry_their_parts() {
    let rsp = RspMsg::new(true, "ok".to_string(), 7u64);
    assert!(rsp.success);
    assert_eq!(rsp.message, "ok");
    assert_eq!(rsp.content, 7);
    let _status = ServerStatus::new(
        true,
        "cert".to_string(),
        BenchmarkingConfig::new("n".to_string(), "d".to_string(), 1, false, Vec::new()),
    );
    let errs = ApiErrorResponse::new(vec!["bad".to_string()]);
    assert_eq!(errs.errors(), &vec!["bad".to_string()]);
}

#[test]
fn verify_request_selects_the_checked_party() {
    let _c = VerifyRequest::verify_company();
    let _a = VerifyRequest::verify_analyst();
}

#[test]
fn companies_track_inputs_results_and_certificates() {
    let mut company = Company::new();
    assert!(!company.does_participate());
    assert!(company.certificate().is_none());
    company.set_certificate(vec![1, 2, 3]);
    assert_eq!(company.certificate().as_ref().unwrap(), &vec![1, 2, 3]);
    company.set_input_data(Input::from_vars(vec![InputVariable::new(
        "x".to_string(),
        vec![0],
    )]));
    assert!(company.does_participate());
    company.set_results_data(Output::new_empty());
    assert_eq!(company.results_data().size(), 0);

    let mut analyst = Analyst::new(vec![9]);
    assert_eq!(analyst.certificate(), &vec![9]);
    analyst.set_certificate(vec![8]);
    assert_eq!(analyst.certificate(), &vec![8]);
}

#[test]
fn inputs_deduplicate_by_name_keeping_the_last() {
    let input = Input::from_vars(vec![
        InputVariable::new("x".to_string(), vec![1.0f64.to_bits()]),
        InputVariable::new("x".to_string(), vec![2.0f64.to_bits()]),
        InputVariable::new("y".to_string(), vec![3.0f64.to_bits()]),
    ]);
    assert_eq!(input.size(), 2);
    assert!(input.has_input_var("x"));
    assert!(input.has_input_var("y"));
    assert!(!input.has_input_var("z"));
    let x = input.get_input_var("x").unwrap();
    assert_eq!(x.values(), &vec![2.0f64.to_bits()]);
}

#[test]
fn resolved_values_are_write_once() {
    let mut rv = ResolvedValues::new();
    rv.insert("a".to_string(), Variable::scalar(1)).unwrap();
    match rv.insert("a".to_string(), Variable::scalar(2)) {
        Err(BenchmarkingError::DuplicateResolved(name)) => assert_eq!(name, "a"),
        other => panic!("expected a duplicate error, got {:?}", other),
    }
    assert!(rv.has(&"a".to_string()));
    assert_eq!(rv.get(&"a".to_string()).unwrap().vector(), &vec![1]);
    match rv.get(&"b".to_string()) {
        Err(BenchmarkingError::UnresolvedValue(name)) => assert_eq!(name, "b"),
        other => panic!("expected an unresolved error, got {:?}", other),
    }
}

#[test]
fn outputs_replace_entries_by_name() {
    let mut out = Output::new_empty();
    out.add_var(OutputVariable::new_result_only("k".to_string(), vec![1]));
    out.add_var(OutputVariable::new_result_only("k".to_string(), vec![2]));
    out.add_var(OutputVariable::new_result_only("m".to_string(), vec![3]));
    assert_eq!(out.size(), 2);
    assert_eq!(out.get_result_from_var("k").unwrap(), &vec![2]);
    assert_eq!(out.get_result_from_var("m").unwrap(), &vec![3]);
}

#[test]
fn bit_predicates_match_the_double_semantics() {
    assert!(bits::is_zero_bits(0.0f64.to_bits()));
    assert!(bits::is_zero_bits((-0.0f64).to_bits()));
    assert!(!bits::is_zero_bits(1.0f64.to_bits()));
    assert!(bits::is_nan_bits(f64::NAN.to_bits()));
    assert!(!bits::is_nan_bits(f64::INFINITY.to_bits()));
    assert!(bits::is_infinite_bits(f64::INFINITY.to_bits()));
    assert!(bits::is_infinite_bits(f64::NEG_INFINITY.to_bits()));
    assert!(!bits::is_infinite_bits(1.0f64.to_bits()));

    let key = |x: f64| bits::float_key(x.to_bits());
    assert!(key(-2.0) < key(-1.0));
    assert!(key(-1.0) < key(0.0));
    assert_eq!(key(0.0), key(-0.0));
    assert!(key(0.0) < key(1.0));
    assert!(key(1.0) < key(2.0));
    assert!(key(2.0) < key(f64::INFINITY));
    assert!(key(f64::INFINITY) < key(f64::NAN));
    assert!(key(f64::NEG_INFINITY) < key(-2.0));
}

#[test]
fn error_messages_name_their_subject() {
    let e = BenchmarkingError::DivisionByZero("y".to_string());
    assert!(e.message().contains("y"));
    let e2 = BenchmarkingError::EmptyAlgorithm;
    assert!(e2.message().contains("empty"));
}
