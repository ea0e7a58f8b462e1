use std::cell::RefCell;
use std::rc::Rc;

use dione::pre_send::{
    configured_pipeline, Assessment, AuditSink, AuditTrail, ChannelType, ConstructFeedback,
    ConstructId, FeedbackSink, HookContext, HookDecision, HookName, HookOutput, NoRly,
    NullAuditSink, NullFeedbackSink, OutboundDestination, PipelineError, PipelineMode,
    PreSendHook, PreSendPipeline, SinkError, SinkFailurePolicy, SinkKind, SinkReply,
};

type Looks = Box<dyn Fn(&HookContext) -> Option<HookOutput>>;

struct TestHook {
    name: HookName,
    looks: Looks,
}

impl PreSendHook for TestHook {
    fn name(&self) -> HookName {
        self.name.clone()
    }

    fn execute(&self, context: &HookContext) -> Option<HookOutput> {
        (self.looks)(context)
    }
}

struct FailingSink;

impl FeedbackSink for FailingSink {
    fn record(&self, _feedback: &ConstructFeedback, _context: &HookContext) -> SinkReply {
        SinkReply::Failed(SinkError::new("feedback unavailable"))
    }
}

struct PanickingAudit;

impl AuditSink for PanickingAudit {
    fn record(&self, _trail: &AuditTrail, _context: &HookContext) -> SinkReply {
        SinkReply::Panicked
    }
}

fn name(text: &str) -> HookName {
    HookName::parse(text).unwrap()
}

fn hook(text: &str, looks: impl Fn(&HookContext) -> Option<HookOutput> + 'static) -> TestHook {
    TestHook {
        name: name(text),
        looks: Box::new(looks),
    }
}

fn decides(text: &str, decision: impl Fn() -> HookDecision + 'static) -> TestHook {
    hook(text, move |_| Some(output(decision())))
}

fn observer(seen: &Rc<RefCell<Vec<String>>>) -> TestHook {
    let seen = Rc::clone(seen);
    hook("observer", move |context| {
        seen.borrow_mut().push(context.text().to_owned());
        Some(output(HookDecision::Continue))
    })
}

fn broken() -> TestHook {
    hook("panicking-hook", |_| None)
}

fn context() -> HookContext {
    HookContext::new(
        "original",
        OutboundDestination::Channel(2),
        ChannelType::Public,
        ConstructId::parse("test").expect("valid construct id"),
    )
}

fn assessment(detail: &str) -> Assessment {
    Assessment::new("test", 0.5f32.to_bits(), detail)
}

fn output(decision: HookDecision) -> HookOutput {
    HookOutput::new(
        decision,
        ConstructFeedback::default(),
        AuditTrail::default(),
    )
}

type Pipeline = PreSendPipeline<TestHook, NullFeedbackSink, NullAuditSink>;

fn pipeline(hooks: Vec<TestHook>, mode: PipelineMode) -> Pipeline {
    PreSendPipeline::new(hooks)
        .unwrap_or_else(|e| panic!("{}", e.to_string()))
        .with_mode(mode)
}

fn failure<T>(r: Result<T, PipelineError>) -> PipelineError {
    match r {
        Ok(_) => panic!("expected an error"),
        Err(e) => e,
    }
}

#[test]
fn observe_is_default_and_preserves_original_text() {
    let pipeline = PreSendPipeline::new(vec![hook("halt", |_| {
        Some(HookOutput::new(
            HookDecision::Halt {
                reason: "stop".to_owned(),
            },
            ConstructFeedback::new(vec![assessment("feedback")]),
            AuditTrail::new(vec![assessment("audit")]),
        ))
    })])
    .unwrap_or_else(|_| panic!("valid pipeline"));

    let outcome = pipeline.run(&context(), &NoRly::none()).expect("run");

    assert_eq!(outcome.final_text(), Some("original"));
    assert!(matches!(outcome.decision(), HookDecision::Continue));
    assert!(outcome.to_construct().as_slice().is_empty());
    assert_eq!(outcome.to_audit().as_slice()[0].detail(), "audit");
}

#[test]
fn hook_panic_observes_with_audit_but_enforcement_fails_closed() {
    let observe = pipeline(vec![broken()], PipelineMode::Observe);
    let observed = observe
        .run(&context(), &NoRly::none())
        .expect("observe run");
    assert_eq!(observed.final_text(), Some("original"));
    assert_eq!(
        observed.to_audit().as_slice()[0].category(),
        "internal-error"
    );

    let enforce = pipeline(vec![broken()], PipelineMode::Enforce);
    assert!(matches!(
        enforce.run(&context(), &NoRly::none()),
        Err(PipelineError::HookPanicked(name)) if name == "panicking-hook"
    ));
}

fn rewrite(text: &str, to: &'static str) -> TestHook {
    decides(text, move || HookDecision::Rewrite {
        text: to.to_owned(),
    })
}

#[test]
fn enforce_applies_rewrite_and_exposes_it_to_next_hook() {
    let seen = Rc::new(RefCell::new(Vec::new()));
    let pipeline = pipeline(
        vec![rewrite("rewriter", "rewritten"), observer(&seen)],
        PipelineMode::Enforce,
    );

    let outcome = pipeline.run(&context(), &NoRly::none()).expect("run");

    assert_eq!(outcome.final_text(), Some("rewritten"));
    assert_eq!(*seen.borrow(), vec!["rewritten"]);
}

#[test]
fn multiple_equal_rewrites_keep_latest_verdict_and_text() {
    let pipeline = pipeline(
        vec![rewrite("first", "one"), rewrite("second", "two")],
        PipelineMode::Enforce,
    );

    let outcome = pipeline.run(&context(), &NoRly::none()).expect("run");

    assert_eq!(outcome.final_text(), Some("two"));
    assert!(matches!(outcome.decision(), HookDecision::Rewrite { text } if text == "two"));
}

#[test]
fn immutable_context_prevents_untyped_side_mutation() {
    let hook = decides("immutable", || HookDecision::Continue);
    let context = context();
    let _ = hook.execute(&context);
    assert_eq!(context.text(), "original");
}

#[test]
fn targeted_no_rly_bypass_is_audited_and_other_hook_runs() {
    let seen = Rc::new(RefCell::new(Vec::new()));
    let pipeline = pipeline(
        vec![
            decides("bypassed", || HookDecision::Halt {
                reason: "stop".to_owned(),
            }),
            observer(&seen),
        ],
        PipelineMode::Enforce,
    );

    let outcome = pipeline
        .run(&context(), &NoRly::new(vec![name("bypassed")]))
        .expect("run");

    assert_eq!(*seen.borrow(), vec!["original"]);
    assert_eq!(
        outcome.to_audit().as_slice()[0]
            .hook_name()
            .unwrap()
            .as_str(),
        "bypassed"
    );
    assert_eq!(outcome.to_audit().as_slice()[0].category(), "no-rly-bypass");
    assert!(outcome.to_audit().as_slice()[0].detail().contains("test"));
}

#[test]
fn hook_attribution_is_stamped_by_pipeline() {
    let pipeline = pipeline(
        vec![hook("real-hook", |_| {
            Some(HookOutput::new(
                HookDecision::Continue,
                ConstructFeedback::default(),
                AuditTrail::new(vec![assessment("finding")]),
            ))
        })],
        PipelineMode::Observe,
    );

    let outcome = pipeline.run(&context(), &NoRly::none()).expect("run");

    assert_eq!(
        outcome.to_audit().as_slice()[0]
            .hook_name()
            .unwrap()
            .as_str(),
        "real-hook"
    );
}

#[test]
fn assessments_are_attributed_once_and_not_duplicated_into_decision() {
    let pipeline = pipeline(
        vec![hook("one-source", |_| {
            Some(HookOutput::new(
                HookDecision::Rewrite {
                    text: "rewritten".to_owned(),
                },
                ConstructFeedback::new(vec![assessment("construct")]),
                AuditTrail::new(vec![assessment("audit")]),
            ))
        })],
        PipelineMode::Enforce,
    );

    let outcome = pipeline.run(&context(), &NoRly::none()).unwrap();

    assert!(matches!(outcome.decision(), HookDecision::Rewrite { text } if text == "rewritten"));
    assert_eq!(outcome.to_construct().as_slice().len(), 1);
    assert_eq!(outcome.to_audit().as_slice().len(), 1);
    assert_eq!(
        outcome.to_construct().as_slice()[0]
            .hook_name()
            .unwrap()
            .as_str(),
        "one-source"
    );
    assert_eq!(
        outcome.to_audit().as_slice()[0]
            .hook_name()
            .unwrap()
            .as_str(),
        "one-source"
    );
}

#[test]
fn confidence_normalizes_non_finite_values() {
    let confidence =
        |x: f32| f32::from_bits(Assessment::new("test", x.to_bits(), "detail").confidence());
    assert_eq!(f32::from_bits(assessment("finite").confidence()), 0.5);
    assert_eq!(confidence(f32::NAN), 0.0);
    assert_eq!(confidence(f32::INFINITY), 0.0);
    assert_eq!(confidence(f32::NEG_INFINITY), 0.0);
    assert_eq!(confidence(1.5), 1.0);
    assert_eq!(confidence(-0.25), 0.0);
    assert_eq!(confidence(0.75), 0.75);
}

#[test]
fn duplicate_and_invalid_hook_names_are_rejected() {
    let go_on = |text: &str| decides(text, || HookDecision::Continue);
    assert!(matches!(
        PreSendPipeline::new(vec![go_on("same"), go_on("same")]),
        Err(PipelineError::DuplicateHookName(name)) if name == "same"
    ));
    assert!(matches!(
        PreSendPipeline::new(vec![TestHook {
            name: HookName("Not Valid".to_owned()),
            looks: Box::new(|_| None),
        }]),
        Err(PipelineError::InvalidHookName(name)) if name == "Not Valid"
    ));
}

#[test]
fn hook_name_boundary_accepts_only_canonical_names() {
    assert_eq!(HookName::parse("tier-1").unwrap().as_str(), "tier-1");
    for invalid in ["", "-leading", "trailing-", "UPPER", "under_score"] {
        assert!(matches!(
            HookName::parse(invalid),
            Err(PipelineError::InvalidHookName(_))
        ));
    }
}

#[test]
fn unknown_hook_override_is_rejected_before_audit() {
    let pipeline = pipeline(
        vec![decides("known", || HookDecision::Continue)],
        PipelineMode::Observe,
    );
    let unknown = name("unknown");
    assert_eq!(
        pipeline.no_rly(&vec![unknown.clone()]),
        Err(PipelineError::UnknownHookName(unknown))
    );
    assert_eq!(
        pipeline.no_rly(&vec![name("known")]),
        Ok(NoRly::new(vec![name("known")]))
    );
}

#[test]
fn run_revalidates_bypass_set_against_registry() {
    let pipeline = pipeline(Vec::new(), PipelineMode::Observe);
    let unknown = name("unknown");
    let bypass = NoRly::new(vec![unknown.clone()]);
    assert_eq!(
        pipeline.run(&context(), &bypass),
        Err(PipelineError::UnknownHookName(unknown))
    );
}

#[test]
fn construct_id_rejects_empty_and_noncanonical_values() {
    assert_eq!(ConstructId::parse("syne").unwrap().as_str(), "syne");
    for invalid in ["", "Syne", "syne_2", "-syne", "syne-"] {
        assert!(ConstructId::parse(invalid).is_err());
    }
}

#[test]
fn outcome_accessors_preserve_consistent_observe_invariants() {
    let outcome = pipeline(Vec::new(), PipelineMode::Observe)
        .run(&context(), &NoRly::none())
        .unwrap();
    assert!(matches!(outcome.decision(), HookDecision::Continue));
    assert_eq!(outcome.final_text(), Some("original"));
    assert!(outcome.to_construct().as_slice().is_empty());
    assert!(outcome.to_audit().as_slice().is_empty());
    assert!(outcome.sink_failures().is_empty());
}

#[test]
fn sink_kind_strings_are_canonical() {
    assert_eq!(SinkKind::Feedback.as_str(), "feedback");
    assert_eq!(SinkKind::Audit.as_str(), "audit");
}

#[test]
fn sink_errors_and_panics_degrade_explicitly() {
    let pipeline = pipeline(Vec::new(), PipelineMode::Observe).with_sinks(
        FailingSink,
        PanickingAudit,
        SinkFailurePolicy::Degrade,
    );

    let outcome = pipeline.run(&context(), &NoRly::none()).expect("run");

    assert_eq!(outcome.sink_failures().len(), 2);
    assert_eq!(outcome.sink_failures()[0].sink(), SinkKind::Feedback);
    assert!(outcome.sink_failures()[0].detail().contains("unavailable"));
    assert_eq!(outcome.sink_failures()[1].detail(), "sink panicked");
}

#[test]
fn fail_closed_sink_policy_returns_error() {
    let pipeline = pipeline(Vec::new(), PipelineMode::Observe).with_sinks(
        FailingSink,
        NullAuditSink,
        SinkFailurePolicy::FailClosed,
    );
    assert!(matches!(
        pipeline.run(&context(), &NoRly::none()),
        Err(PipelineError::SinkFailures(failures)) if failures.len() == 1
    ));
}

#[test]
fn empty_pipeline_sends_original_text() {
    let outcome = pipeline(Vec::new(), PipelineMode::Observe)
        .run(&context(), &NoRly::none())
        .expect("run");
    assert_eq!(outcome.final_text(), Some("original"));
    assert!(outcome.to_audit().as_slice().is_empty());
}

#[test]
fn production_lifecycle_defaults_to_observe_and_none_means_disabled() {
    let enabled = configured_pipeline::<TestHook, _, _>(
        true,
        Vec::new(),
        NullFeedbackSink,
        NullAuditSink,
    )
    .unwrap_or_else(|_| panic!("configured pipeline"))
    .unwrap_or_else(|| panic!("enabled pipeline"));
    let outcome = enabled.run(&context(), &NoRly::none()).expect("run");
    assert!(matches!(outcome.decision(), HookDecision::Continue));

    assert!(configured_pipeline::<TestHook, _, _>(
        false,
        Vec::new(),
        NullFeedbackSink,
        NullAuditSink
    )
    .unwrap_or_else(|_| panic!("disabled configuration"))
    .is_none());
}

#[test]
fn a_halt_stops_the_message_and_the_hooks_after_it() {
    let seen = Rc::new(RefCell::new(Vec::new()));
    let pipeline = pipeline(
        vec![
            rewrite("rewriter", "rewritten"),
            decides("halt", || HookDecision::Halt {
                reason: "stop".to_owned(),
            }),
            observer(&seen),
        ],
        PipelineMode::Enforce,
    );
    let outcome = pipeline.run(&context(), &NoRly::none()).unwrap();
    assert!(seen.borrow().is_empty());
    assert_eq!(outcome.final_text(), None);
    assert!(matches!(outcome.decision(), HookDecision::Halt { reason } if reason == "stop"));
}

#[test]
fn a_redirect_is_stricter_than_a_later_rewrite() {
    let pipeline = pipeline(
        vec![
            decides("mover", || HookDecision::Redirect { channel_id: 9 }),
            rewrite("rewriter", "rewritten"),
        ],
        PipelineMode::Enforce,
    );
    let outcome = pipeline.run(&context(), &NoRly::none()).unwrap();
    assert_eq!(outcome.final_text(), Some("rewritten"));
    assert!(matches!(
        outcome.decision(),
        HookDecision::Redirect { channel_id: 9 }
    ));
}

#[test]
fn pipeline_errors_say_what_is_wrong() {
    assert_eq!(
        failure(HookName::parse("Nope")).to_string(),
        "invalid pre-send hook name `Nope`"
    );
    assert_eq!(
        PipelineError::DuplicateHookName("twin".into()).to_string(),
        "duplicate pre-send hook name `twin`"
    );
    assert_eq!(
        PipelineError::UnknownHookName(name("who")).to_string(),
        "unknown pre-send hook name `who`"
    );
    assert_eq!(
        PipelineError::HookPanicked("hot".into()).to_string(),
        "pre-send hook `hot` panicked"
    );
    assert_eq!(
        PipelineError::SinkFailures(vec![]).to_string(),
        "pre-send assessment routing failed for 0 sink(s)"
    );
}

#[test]
fn no_rly_compares_as_a_set() {
    let of = |names: &[&str]| NoRly::new(names.iter().map(|n| name(n)).collect());
    assert_eq!(of(&["a", "b"]), of(&["b", "a", "b"]));
    assert_ne!(of(&["a", "b"]), of(&["a"]));
    assert_ne!(of(&["a"]), of(&["a", "b"]));
    assert_eq!(of(&[]), NoRly::none());
}

#[test]
fn assessments_compare_their_confidence_as_numbers() {
    let of = |confidence: f32| Assessment::new("tone", confidence.to_bits(), "detail");
    assert_eq!(of(0.0), of(-0.0));
    assert_eq!(of(0.5), of(0.5));
    assert_ne!(of(0.5), of(0.25));
    assert_ne!(of(0.0), of(0.5));
    assert_ne!(
        Assessment::new("tone", 0, "detail"),
        Assessment::new("tone", 0, "other")
    );
}
