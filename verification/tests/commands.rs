use plaid_kit::commands::config::{
    apply_config_edits, plan_config_command, set_model_next, set_model_start, ConfigCommand,
    ConfigEdit, ConfigOptions, SetModelAction, SetModelStage, StoredSettings,
};

fn none() -> ConfigOptions {
    ConfigOptions {
        default_k: None,
        default_n: None,
        fp32: false,
        int8: false,
        pool_factor: None,
        parallel_sessions: None,
        batch_size: None,
        max_recursion_depth: None,
        verbose: false,
        no_verbose: false,
    }
}

fn edits(o: ConfigOptions) -> Vec<ConfigEdit> {
    match plan_config_command(&o) {
        ConfigCommand::Apply(e) => e,
        ConfigCommand::Show => panic!("expected changes"),
    }
}

#[test]
fn config_without_options_shows() {
    assert!(matches!(plan_config_command(&none()), ConfigCommand::Show));
}

#[test]
fn config_zero_resets_and_precedence() {
    let mut o = none();
    o.default_k = Some(0);
    o.fp32 = true;
    o.int8 = true;
    o.verbose = true;
    o.no_verbose = true;
    assert_eq!(edits(o), vec![ConfigEdit::ResetDefaultK, ConfigEdit::ResetPrecision, ConfigEdit::EnableVerbose]);
}

#[test]
fn config_sets_in_order() {
    let o = ConfigOptions {
        default_k: Some(30),
        default_n: Some(0),
        fp32: false,
        int8: true,
        pool_factor: Some(1),
        parallel_sessions: Some(0),
        batch_size: Some(4),
        max_recursion_depth: Some(2048),
        verbose: false,
        no_verbose: true,
    };
    assert_eq!(
        edits(o),
        vec![
            ConfigEdit::SetDefaultK(30),
            ConfigEdit::ResetDefaultN,
            ConfigEdit::SetInt8,
            ConfigEdit::SetPoolFactor(1),
            ConfigEdit::ResetParallelSessions,
            ConfigEdit::SetBatchSize(4),
            ConfigEdit::SetMaxRecursionDepth(2048),
            ConfigEdit::ResetVerbose,
        ]
    );
    let mut o = none();
    o.max_recursion_depth = Some(0);
    assert_eq!(edits(o), vec![ConfigEdit::ResetMaxRecursionDepth]);
}

#[test]
fn set_model_decisions() {
    let current = Some("lightonai/model".to_string());
    assert!(matches!(set_model_start(&current, "lightonai/model"), SetModelAction::AlreadySet));
    assert!(matches!(
        set_model_start(&current, "other/model"),
        SetModelAction::Run(SetModelStage::Download)
    ));
    assert!(matches!(
        set_model_start(&None, "other/model"),
        SetModelAction::Run(SetModelStage::Download)
    ));
}

fn next(had: bool, stage: SetModelStage, outcome: Result<(), &str>) -> SetModelAction {
    set_model_next(had, stage, outcome.map_err(|e| e.to_string()))
}

#[test]
fn set_model_sequence() {
    assert!(matches!(next(true, SetModelStage::Download, Ok(())), SetModelAction::Run(SetModelStage::Runtime)));
    assert!(matches!(next(true, SetModelStage::Runtime, Ok(())), SetModelAction::Run(SetModelStage::Build)));
    assert!(matches!(next(true, SetModelStage::Build, Ok(())), SetModelAction::Run(SetModelStage::ClearIndexes)));
    assert!(matches!(next(false, SetModelStage::Build, Ok(())), SetModelAction::Run(SetModelStage::SaveModel)));
    assert!(matches!(next(true, SetModelStage::ClearIndexes, Ok(())), SetModelAction::Run(SetModelStage::SaveModel)));
    assert!(matches!(next(true, SetModelStage::SaveModel, Ok(())), SetModelAction::Switched));
    match next(true, SetModelStage::Build, Err("bad graph")) {
        SetModelAction::Fail(m) => assert_eq!(m, "Model validation failed: bad graph"),
        _ => panic!("expected a failure"),
    }
    match next(false, SetModelStage::Download, Err("not found")) {
        SetModelAction::Fail(m) => assert_eq!(m, "not found"),
        _ => panic!("expected a failure"),
    }
    match next(true, SetModelStage::SaveModel, Err("disk full")) {
        SetModelAction::Fail(m) => assert_eq!(m, "disk full"),
        _ => panic!("expected a failure"),
    }
}

#[test]
fn config_changes_are_applied_to_the_settings() {
    let mut settings = StoredSettings {
        default_k: Some(10),
        default_n: Some(3),
        fp32: Some(false),
        pool_factor: None,
        parallel_sessions: Some(4),
        batch_size: Some(8),
        max_recursion_depth: None,
        verbose: Some(true),
    };
    let mut o = none();
    o.default_k = Some(0);
    o.pool_factor = Some(2);
    o.fp32 = true;
    o.int8 = true;
    o.no_verbose = true;
    apply_config_edits(&mut settings, &edits(o));
    assert_eq!(
        settings,
        StoredSettings {
            default_k: None,
            default_n: Some(3),
            fp32: None,
            pool_factor: Some(2),
            parallel_sessions: Some(4),
            batch_size: Some(8),
            max_recursion_depth: None,
            verbose: None,
        }
    );
    let mut o = none();
    o.int8 = true;
    o.verbose = true;
    o.no_verbose = true;
    apply_config_edits(&mut settings, &edits(o));
    assert_eq!((settings.fp32, settings.verbose), (Some(false), Some(true)));
}
