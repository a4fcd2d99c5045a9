//! Decisions of the `config` and `set-model` commands of the code search tool.

use vstd::prelude::*;

verus! {

/// The options of the `config` command.
#[derive(Debug)]
pub struct ConfigOptions {
    pub default_k: Option<usize>,
    pub default_n: Option<usize>,
    pub fp32: bool,
    pub int8: bool,
    pub pool_factor: Option<usize>,
    pub parallel_sessions: Option<usize>,
    pub batch_size: Option<usize>,
    pub max_recursion_depth: Option<usize>,
    pub verbose: bool,
    pub no_verbose: bool,
}

/// One change to the stored configuration (a value of 0 resets a setting).
#[derive(Clone, Copy, Debug, PartialEq, Eq)]
pub enum ConfigEdit {
    ResetDefaultK,
    SetDefaultK(usize),
    ResetDefaultN,
    SetDefaultN(usize),
    /// Back to full precision (the default).
    ResetPrecision,
    /// Quantized (INT8) model.
    SetInt8,
    ResetPoolFactor,
    SetPoolFactor(usize),
    ResetParallelSessions,
    SetParallelSessions(usize),
    ResetBatchSize,
    SetBatchSize(usize),
    ResetMaxRecursionDepth,
    SetMaxRecursionDepth(usize),
    EnableVerbose,
    ResetVerbose,
}

/// What the `config` command does.
#[derive(Debug)]
pub enum ConfigCommand {
    /// No option given: show the current configuration.
    Show,
    /// Apply these changes, in order, then save.
    Apply(Vec<ConfigEdit>),
}

pub open spec fn no_option(o: ConfigOptions) -> bool {
    &&& o.default_k is None
    &&& o.default_n is None
    &&& !o.fp32
    &&& !o.int8
    &&& o.pool_factor is None
    &&& o.parallel_sessions is None
    &&& o.batch_size is None
    &&& o.max_recursion_depth is None
    &&& !o.verbose
    &&& !o.no_verbose
}

/// The change for a numeric option: none when absent, a reset for 0, a set otherwise.
pub open spec fn numeric_edit(
    v: Option<usize>,
    reset: ConfigEdit,
    set: spec_fn(usize) -> ConfigEdit,
) -> Seq<ConfigEdit> {
    match v {
        None => seq![],
        Some(x) => if x == 0 {
            seq![reset]
        } else {
            seq![set(x)]
        },
    }
}

/// The changes the options ask for, in the order they are applied: k, n, precision
/// (`fp32` wins over `int8`), pool factor, parallel sessions, batch size, recursion
/// depth, verbosity (`verbose` wins over `no_verbose`).
pub open spec fn config_edits(o: ConfigOptions) -> Seq<ConfigEdit> {
    numeric_edit(o.default_k, ConfigEdit::ResetDefaultK, |x: usize| ConfigEdit::SetDefaultK(x))
        + numeric_edit(o.default_n, ConfigEdit::ResetDefaultN, |x: usize| ConfigEdit::SetDefaultN(x))
        + (if o.fp32 {
        seq![ConfigEdit::ResetPrecision]
    } else if o.int8 {
        seq![ConfigEdit::SetInt8]
    } else {
        seq![]
    }) + numeric_edit(
        o.pool_factor,
        ConfigEdit::ResetPoolFactor,
        |x: usize| ConfigEdit::SetPoolFactor(x),
    ) + numeric_edit(
        o.parallel_sessions,
        ConfigEdit::ResetParallelSessions,
        |x: usize| ConfigEdit::SetParallelSessions(x),
    ) + numeric_edit(
        o.batch_size,
        ConfigEdit::ResetBatchSize,
        |x: usize| ConfigEdit::SetBatchSize(x),
    ) + numeric_edit(
        o.max_recursion_depth,
        ConfigEdit::ResetMaxRecursionDepth,
        |x: usize| ConfigEdit::SetMaxRecursionDepth(x),
    ) + (if o.verbose {
        seq![ConfigEdit::EnableVerbose]
    } else if o.no_verbose {
        seq![ConfigEdit::ResetVerbose]
    } else {
        seq![]
    })
}

fn push_numeric(
    edits: &mut Vec<ConfigEdit>,
    v: Option<usize>,
    reset: ConfigEdit,
    set_x: ConfigEdit,
    Ghost(set): Ghost<spec_fn(usize) -> ConfigEdit>,
)
    requires
        v is Some ==> set_x == set(v.unwrap()),
    ensures
        final(edits)@ == old(edits)@ + numeric_edit(v, reset, set),
{
    match v {
        Some(x) => {
            if x == 0 {
                edits.push(reset);
            } else {
                edits.push(set_x);
            }
        },
        None => {},
    }
    assert(final(edits)@ =~= old(edits)@ + numeric_edit(v, reset, set));
}

/// What the `config` command does with its options: show the configuration when none
/// is given, otherwise apply the changes they ask for.
pub fn plan_config_command(o: &ConfigOptions) -> (r: ConfigCommand)
    ensures
        no_option(*o) ==> r is Show,
        !no_option(*o) ==> (match r {
            ConfigCommand::Apply(edits) => edits@ == config_edits(*o) && edits@.len() > 0,
            ConfigCommand::Show => false,
        }),
{
    if o.default_k.is_none() && o.default_n.is_none() && !o.fp32 && !o.int8
        && o.pool_factor.is_none() && o.parallel_sessions.is_none() && o.batch_size.is_none()
        && o.max_recursion_depth.is_none() && !o.verbose && !o.no_verbose {
        return ConfigCommand::Show;
    }
    let mut edits: Vec<ConfigEdit> = Vec::new();
    let ghost e0 = edits@;
    push_numeric(
        &mut edits,
        o.default_k,
        ConfigEdit::ResetDefaultK,
        ConfigEdit::SetDefaultK(o.default_k.unwrap_or(0)),
        Ghost(|x: usize| ConfigEdit::SetDefaultK(x)),
    );
    push_numeric(
        &mut edits,
        o.default_n,
        ConfigEdit::ResetDefaultN,
        ConfigEdit::SetDefaultN(o.default_n.unwrap_or(0)),
        Ghost(|x: usize| ConfigEdit::SetDefaultN(x)),
    );
    let ghost e2 = edits@;
    if o.fp32 {
        edits.push(ConfigEdit::ResetPrecision);
    } else if o.int8 {
        edits.push(ConfigEdit::SetInt8);
    }
    let ghost e3 = edits@;
    push_numeric(
        &mut edits,
        o.pool_factor,
        ConfigEdit::ResetPoolFactor,
        ConfigEdit::SetPoolFactor(o.pool_factor.unwrap_or(0)),
        Ghost(|x: usize| ConfigEdit::SetPoolFactor(x)),
    );
    push_numeric(
        &mut edits,
        o.parallel_sessions,
        ConfigEdit::ResetParallelSessions,
        ConfigEdit::SetParallelSessions(o.parallel_sessions.unwrap_or(0)),
        Ghost(|x: usize| ConfigEdit::SetParallelSessions(x)),
    );
    push_numeric(
        &mut edits,
        o.batch_size,
        ConfigEdit::ResetBatchSize,
        ConfigEdit::SetBatchSize(o.batch_size.unwrap_or(0)),
        Ghost(|x: usize| ConfigEdit::SetBatchSize(x)),
    );
    push_numeric(
        &mut edits,
        o.max_recursion_depth,
        ConfigEdit::ResetMaxRecursionDepth,
        ConfigEdit::SetMaxRecursionDepth(o.max_recursion_depth.unwrap_or(0)),
        Ghost(|x: usize| ConfigEdit::SetMaxRecursionDepth(x)),
    );
    let ghost e7 = edits@;
    if o.verbose {
        edits.push(ConfigEdit::EnableVerbose);
    } else if o.no_verbose {
        edits.push(ConfigEdit::ResetVerbose);
    }
    proof {
        assert(edits@ =~= config_edits(*o));
    }
    ConfigCommand::Apply(edits)
}

/// The stages of `set-model` that touch the outside world, in the order they may run:
/// fetching the model, making the ONNX runtime available, loading the model to check
/// it, clearing the indexes built with the previous model, and storing the new model
/// as the default.
#[derive(Clone, Copy, Debug, PartialEq, Eq)]
pub enum SetModelStage {
    Download,
    Runtime,
    Build,
    ClearIndexes,
    SaveModel,
}

/// What `set-model` does next.
#[derive(Debug)]
pub enum SetModelAction {
    /// Perform this stage and report its outcome.
    Run(SetModelStage),
    /// The model already was the default: nothing changes.
    AlreadySet,
    /// The model was validated (indexes of the previous model cleared) and stored.
    Switched,
    /// Stop with this error; the stored model is left as it was unless the failing
    /// stage was the saving itself.
    Fail(String),
}

/// The mathematical value of a [`SetModelAction`].
pub enum SetModelStep {
    Run(SetModelStage),
    AlreadySet,
    Switched,
    Fail(Seq<char>),
}

pub open spec fn step_view(a: SetModelAction) -> SetModelStep {
    match a {
        SetModelAction::Run(s) => SetModelStep::Run(s),
        SetModelAction::AlreadySet => SetModelStep::AlreadySet,
        SetModelAction::Switched => SetModelStep::Switched,
        SetModelAction::Fail(m) => SetModelStep::Fail(m@),
    }
}

/// The first step of `set-model model` with `current` the configured model.
pub open spec fn set_model_first(current: Option<Seq<char>>, model: Seq<char>) -> SetModelStep {
    if current == Some(model) {
        SetModelStep::AlreadySet
    } else {
        SetModelStep::Run(SetModelStage::Download)
    }
}

/// The step after `stage` ended with `outcome` (an error's message on failure);
/// `had_model` tells whether a model was configured before.
pub open spec fn set_model_after(
    had_model: bool,
    stage: SetModelStage,
    outcome: Result<(), Seq<char>>,
) -> SetModelStep {
    match outcome {
        Err(e) => match stage {
            SetModelStage::Build => SetModelStep::Fail("Model validation failed: "@ + e),
            _ => SetModelStep::Fail(e),
        },
        Ok(()) => match stage {
            SetModelStage::Download => SetModelStep::Run(SetModelStage::Runtime),
            SetModelStage::Runtime => SetModelStep::Run(SetModelStage::Build),
            SetModelStage::Build => if had_model {
                SetModelStep::Run(SetModelStage::ClearIndexes)
            } else {
                SetModelStep::Run(SetModelStage::SaveModel)
            },
            SetModelStage::ClearIndexes => SetModelStep::Run(SetModelStage::SaveModel),
            SetModelStage::SaveModel => SetModelStep::Switched,
        },
    }
}

pub open spec fn outcome_view(o: Result<(), String>) -> Result<(), Seq<char>> {
    match o {
        Ok(()) => Ok(()),
        Err(e) => Err(e@),
    }
}

/// How `set-model model` begins, `current` being the configured model: nothing to do
/// when it already is `model`, else fetch the model.
pub fn set_model_start(current: &Option<String>, model: &str) -> (r: SetModelAction)
    ensures
        step_view(r) == set_model_first(
            match current {
                Some(c) => Some(c@),
                None => None,
            },
            model@,
        ),
{
    broadcast use vstd::string::group_string_axioms;

    match current {
        Some(c) => {
            if *c == model.to_string() {
                SetModelAction::AlreadySet
            } else {
                SetModelAction::Run(SetModelStage::Download)
            }
        },
        None => SetModelAction::Run(SetModelStage::Download),
    }
}

/// What `set-model` does once `stage` ended with `outcome`: validation runs download,
/// runtime, then loading; a failure stops the command (a failed load as "Model
/// validation failed: ..."); after a successful load the indexes are cleared when a
/// model was configured before (`had_model`), and the model is then saved.
pub fn set_model_next(had_model: bool, stage: SetModelStage, outcome: Result<(), String>) -> (r:
    SetModelAction)
    ensures
        step_view(r) == set_model_after(had_model, stage, outcome_view(outcome)),
{
    broadcast use vstd::string::group_string_axioms;

    match outcome {
        Err(e) => match stage {
            SetModelStage::Build => {
                let mut m = "Model validation failed: ".to_string();
                m.append(e.as_str());
                SetModelAction::Fail(m)
            },
            _ => SetModelAction::Fail(e),
        },
        Ok(()) => match stage {
            SetModelStage::Download => SetModelAction::Run(SetModelStage::Runtime),
            SetModelStage::Runtime => SetModelAction::Run(SetModelStage::Build),
            SetModelStage::Build => if had_model {
                SetModelAction::Run(SetModelStage::ClearIndexes)
            } else {
                SetModelAction::Run(SetModelStage::SaveModel)
            },
            SetModelStage::ClearIndexes => SetModelAction::Run(SetModelStage::SaveModel),
            SetModelStage::SaveModel => SetModelAction::Switched,
        },
    }
}

/// Each stage follows the successful end of the one before it: the runtime after the
/// download, the load after the runtime; clearing the indexes is asked for only right
/// after the model loaded successfully,
/// and only when a model was configured before; saving the new model only right after
/// a successful load or a successful clearing; success is reported only after saving.
pub proof fn lemma_set_model_order(had_model: bool, stage: SetModelStage, outcome: Result<(), Seq<char>>)
    ensures
        set_model_after(had_model, stage, outcome) == SetModelStep::Run(SetModelStage::ClearIndexes)
            ==> stage == SetModelStage::Build && outcome is Ok && had_model,
        set_model_after(had_model, stage, outcome) == SetModelStep::Run(SetModelStage::SaveModel)
            ==> outcome is Ok && ((stage == SetModelStage::Build && !had_model) || stage
            == SetModelStage::ClearIndexes),
        set_model_after(had_model, stage, outcome) == SetModelStep::Run(SetModelStage::Runtime)
            ==> stage == SetModelStage::Download && outcome is Ok,
        set_model_after(had_model, stage, outcome) == SetModelStep::Run(SetModelStage::Build)
            ==> stage == SetModelStage::Runtime && outcome is Ok,
        set_model_after(had_model, stage, outcome) == SetModelStep::Switched ==> stage
            == SetModelStage::SaveModel && outcome is Ok,
        outcome is Err ==> set_model_after(had_model, stage, outcome) is Fail,
{
}

/// Where a run of `set-model` ends: from `step`, each stage performed ends with the
/// next of `outcomes`; the run stops at the first step that is no stage, or when the
/// outcomes run out.
pub open spec fn set_model_run(
    had_model: bool,
    step: SetModelStep,
    outcomes: Seq<Result<(), Seq<char>>>,
) -> SetModelStep
    decreases outcomes.len(),
{
    match step {
        SetModelStep::Run(s) => if outcomes.len() == 0 {
            step
        } else {
            set_model_run(had_model, set_model_after(had_model, s, outcomes[0]), outcomes.drop_first())
        },
        _ => step,
    }
}

/// The stages a run of `set-model` performs, in order.
pub open spec fn set_model_stages(
    had_model: bool,
    step: SetModelStep,
    outcomes: Seq<Result<(), Seq<char>>>,
) -> Seq<SetModelStage>
    decreases outcomes.len(),
{
    match step {
        SetModelStep::Run(s) => if outcomes.len() == 0 {
            seq![]
        } else {
            seq![s] + set_model_stages(
                had_model,
                set_model_after(had_model, s, outcomes[0]),
                outcomes.drop_first(),
            )
        },
        _ => seq![],
    }
}

/// The stages of a switch: validation (download, runtime, load), the clearing of the
/// indexes when a model was configured before, then saving.
pub open spec fn switch_stages(had_model: bool) -> Seq<SetModelStage> {
    if had_model {
        seq![
            SetModelStage::Download,
            SetModelStage::Runtime,
            SetModelStage::Build,
            SetModelStage::ClearIndexes,
            SetModelStage::SaveModel,
        ]
    } else {
        seq![
            SetModelStage::Download,
            SetModelStage::Runtime,
            SetModelStage::Build,
            SetModelStage::SaveModel,
        ]
    }
}

proof fn lemma_switch_from(had_model: bool, k: int, outcomes: Seq<Result<(), Seq<char>>>)
    requires
        0 <= k < switch_stages(had_model).len(),
        set_model_run(had_model, SetModelStep::Run(switch_stages(had_model)[k]), outcomes)
            == SetModelStep::Switched,
    ensures
        set_model_stages(had_model, SetModelStep::Run(switch_stages(had_model)[k]), outcomes)
            == switch_stages(had_model).skip(k),
        outcomes.len() >= switch_stages(had_model).len() - k,
        forall|i: int| 0 <= i < switch_stages(had_model).len() - k ==> (#[trigger] outcomes[i]) is Ok,
    decreases switch_stages(had_model).len() - k,
{
    let ss = switch_stages(had_model);
    let s = ss[k];
    assert(outcomes.len() > 0);
    let rest = outcomes.drop_first();
    let a = set_model_after(had_model, s, outcomes[0]);
    assert(set_model_run(had_model, SetModelStep::Run(s), outcomes) == set_model_run(had_model, a, rest));
    if outcomes[0] is Err {
        assert(a is Fail);
        assert(set_model_run(had_model, a, rest) == a);
        assert(false);
    }
    if k + 1 < ss.len() {
        assert(set_model_after(had_model, s, outcomes[0]) == SetModelStep::Run(ss[k + 1]));
        lemma_switch_from(had_model, k + 1, rest);
        assert(ss.skip(k) =~= seq![s] + ss.skip(k + 1));
        assert forall|i: int| 0 <= i < ss.len() - k implies (#[trigger] outcomes[i]) is Ok by {
            if i > 0 {
                assert(outcomes[i] == rest[i - 1]);
            }
        }
    } else {
        assert(set_model_after(had_model, s, outcomes[0]) == SetModelStep::Switched);
        assert(ss.skip(k) =~= seq![s]);
        assert(set_model_stages(had_model, SetModelStep::Switched, rest) =~= Seq::<SetModelStage>::empty());
    }
}

/// A run of `set-model` that ends in a switch performed exactly the validation stages,
/// then cleared the indexes when a model was configured before, then saved the model,
/// and every one of these stages succeeded.
pub proof fn lemma_set_model_run(had_model: bool, outcomes: Seq<Result<(), Seq<char>>>)
    requires
        set_model_run(had_model, SetModelStep::Run(SetModelStage::Download), outcomes)
            == SetModelStep::Switched,
    ensures
        set_model_stages(had_model, SetModelStep::Run(SetModelStage::Download), outcomes)
            == switch_stages(had_model),
        outcomes.len() >= switch_stages(had_model).len(),
        forall|i: int| 0 <= i < switch_stages(had_model).len() ==> (#[trigger] outcomes[i]) is Ok,
{
    lemma_switch_from(had_model, 0, outcomes);
    assert(switch_stages(had_model).skip(0) =~= switch_stages(had_model));
}


/// The settings of the code-search tool that `config` changes, as stored (`None` when a
/// setting is not stored, so that its default applies).
#[derive(Clone, Copy, Debug, PartialEq, Eq)]
pub struct StoredSettings {
    pub default_k: Option<usize>,
    pub default_n: Option<usize>,
    /// Full precision (`Some(false)`: the quantized model).
    pub fp32: Option<bool>,
    pub pool_factor: Option<usize>,
    pub parallel_sessions: Option<usize>,
    pub batch_size: Option<usize>,
    pub max_recursion_depth: Option<usize>,
    pub verbose: Option<bool>,
}

/// The settings after one change: a reset clears the setting, a set stores the value.
pub open spec fn edit_settings(s: StoredSettings, e: ConfigEdit) -> StoredSettings {
    match e {
        ConfigEdit::ResetDefaultK => StoredSettings { default_k: None, ..s },
        ConfigEdit::SetDefaultK(v) => StoredSettings { default_k: Some(v), ..s },
        ConfigEdit::ResetDefaultN => StoredSettings { default_n: None, ..s },
        ConfigEdit::SetDefaultN(v) => StoredSettings { default_n: Some(v), ..s },
        ConfigEdit::ResetPrecision => StoredSettings { fp32: None, ..s },
        ConfigEdit::SetInt8 => StoredSettings { fp32: Some(false), ..s },
        ConfigEdit::ResetPoolFactor => StoredSettings { pool_factor: None, ..s },
        ConfigEdit::SetPoolFactor(v) => StoredSettings { pool_factor: Some(v), ..s },
        ConfigEdit::ResetParallelSessions => StoredSettings { parallel_sessions: None, ..s },
        ConfigEdit::SetParallelSessions(v) => StoredSettings { parallel_sessions: Some(v), ..s },
        ConfigEdit::ResetBatchSize => StoredSettings { batch_size: None, ..s },
        ConfigEdit::SetBatchSize(v) => StoredSettings { batch_size: Some(v), ..s },
        ConfigEdit::ResetMaxRecursionDepth => StoredSettings { max_recursion_depth: None, ..s },
        ConfigEdit::SetMaxRecursionDepth(v) => StoredSettings {
            max_recursion_depth: Some(v),
            ..s
        },
        ConfigEdit::EnableVerbose => StoredSettings { verbose: Some(true), ..s },
        ConfigEdit::ResetVerbose => StoredSettings { verbose: None, ..s },
    }
}

/// The settings after the changes `es`, applied in order.
pub open spec fn apply_edits(s: StoredSettings, es: Seq<ConfigEdit>) -> StoredSettings
    decreases es.len(),
{
    if es.len() == 0 {
        s
    } else {
        edit_settings(apply_edits(s, es.drop_last()), es.last())
    }
}

/// Applies the changes `edits`, in order, to the stored settings.
pub fn apply_config_edits(settings: &mut StoredSettings, edits: &Vec<ConfigEdit>)
    ensures
        *final(settings) == apply_edits(*old(settings), edits@),
{
    let ghost start = *settings;
    let n = edits.len();
    for i in 0..n
        invariant
            n == edits.len(),
            *settings == apply_edits(start, edits@.take(i as int)),
    {
        assert(edits@.take(i + 1).drop_last() =~= edits@.take(i as int));
        match edits[i] {
            ConfigEdit::ResetDefaultK => settings.default_k = None,
            ConfigEdit::SetDefaultK(v) => settings.default_k = Some(v),
            ConfigEdit::ResetDefaultN => settings.default_n = None,
            ConfigEdit::SetDefaultN(v) => settings.default_n = Some(v),
            ConfigEdit::ResetPrecision => settings.fp32 = None,
            ConfigEdit::SetInt8 => settings.fp32 = Some(false),
            ConfigEdit::ResetPoolFactor => settings.pool_factor = None,
            ConfigEdit::SetPoolFactor(v) => settings.pool_factor = Some(v),
            ConfigEdit::ResetParallelSessions => settings.parallel_sessions = None,
            ConfigEdit::SetParallelSessions(v) => settings.parallel_sessions = Some(v),
            ConfigEdit::ResetBatchSize => settings.batch_size = None,
            ConfigEdit::SetBatchSize(v) => settings.batch_size = Some(v),
            ConfigEdit::ResetMaxRecursionDepth => settings.max_recursion_depth = None,
            ConfigEdit::SetMaxRecursionDepth(v) => settings.max_recursion_depth = Some(v),
            ConfigEdit::EnableVerbose => settings.verbose = Some(true),
            ConfigEdit::ResetVerbose => settings.verbose = None,
        }
    }
    assert(edits@.take(n as int) =~= edits@);
}

/// A numeric setting after its option: kept when the option is absent, cleared by 0,
/// else set to the value given.
pub open spec fn numeric_after(old: Option<usize>, v: Option<usize>) -> Option<usize> {
    match v {
        None => old,
        Some(x) => if x == 0 {
            None
        } else {
            Some(x)
        },
    }
}

/// The stored settings after `config` with the options `o`: each numeric option keeps,
/// clears (0) or sets its setting; `fp32` clears the precision (full precision is the
/// default) and wins over `int8`, which stores the quantized model; `verbose` stores
/// verbose output and wins over `no_verbose`, which clears it.
pub open spec fn settings_after(s: StoredSettings, o: ConfigOptions) -> StoredSettings {
    StoredSettings {
        default_k: numeric_after(s.default_k, o.default_k),
        default_n: numeric_after(s.default_n, o.default_n),
        fp32: if o.fp32 {
            None
        } else if o.int8 {
            Some(false)
        } else {
            s.fp32
        },
        pool_factor: numeric_after(s.pool_factor, o.pool_factor),
        parallel_sessions: numeric_after(s.parallel_sessions, o.parallel_sessions),
        batch_size: numeric_after(s.batch_size, o.batch_size),
        max_recursion_depth: numeric_after(s.max_recursion_depth, o.max_recursion_depth),
        verbose: if o.verbose {
            Some(true)
        } else if o.no_verbose {
            None
        } else {
            s.verbose
        },
    }
}

proof fn lemma_apply_one(s: StoredSettings, es: Seq<ConfigEdit>)
    requires
        es.len() <= 1,
    ensures
        apply_edits(s, es) == if es.len() == 0 {
            s
        } else {
            edit_settings(s, es[0])
        },
{
    if es.len() == 1 {
        assert(es.drop_last() =~= Seq::<ConfigEdit>::empty());
        assert(apply_edits(s, es.drop_last()) == s);
        assert(es.last() == es[0]);
    }
}

proof fn lemma_apply_concat(s: StoredSettings, a: Seq<ConfigEdit>, b: Seq<ConfigEdit>)
    ensures
        apply_edits(s, a + b) == apply_edits(apply_edits(s, a), b),
    decreases b.len(),
{
    if b.len() == 0 {
        assert(a + b =~= a);
    } else {
        assert((a + b).drop_last() =~= a + b.drop_last());
        lemma_apply_concat(s, a, b.drop_last());
    }
}

/// Applying the changes that `config` plans for the options `o` gives the settings
/// that the options ask for.
pub proof fn lemma_config_edits_apply(s: StoredSettings, o: ConfigOptions)
    ensures
        apply_edits(s, config_edits(o)) == settings_after(s, o),
{
    let f1 = |x: usize| ConfigEdit::SetDefaultK(x);
    let f2 = |x: usize| ConfigEdit::SetDefaultN(x);
    let f4 = |x: usize| ConfigEdit::SetPoolFactor(x);
    let f5 = |x: usize| ConfigEdit::SetParallelSessions(x);
    let f6 = |x: usize| ConfigEdit::SetBatchSize(x);
    let f7 = |x: usize| ConfigEdit::SetMaxRecursionDepth(x);
    let e1 = numeric_edit(o.default_k, ConfigEdit::ResetDefaultK, f1);
    let e2 = numeric_edit(o.default_n, ConfigEdit::ResetDefaultN, f2);
    let e3: Seq<ConfigEdit> = if o.fp32 {
        seq![ConfigEdit::ResetPrecision]
    } else if o.int8 {
        seq![ConfigEdit::SetInt8]
    } else {
        seq![]
    };
    let e4 = numeric_edit(o.pool_factor, ConfigEdit::ResetPoolFactor, f4);
    let e5 = numeric_edit(o.parallel_sessions, ConfigEdit::ResetParallelSessions, f5);
    let e6 = numeric_edit(o.batch_size, ConfigEdit::ResetBatchSize, f6);
    let e7 = numeric_edit(o.max_recursion_depth, ConfigEdit::ResetMaxRecursionDepth, f7);
    let e8: Seq<ConfigEdit> = if o.verbose {
        seq![ConfigEdit::EnableVerbose]
    } else if o.no_verbose {
        seq![ConfigEdit::ResetVerbose]
    } else {
        seq![]
    };
    assert(config_edits(o) == e1 + e2 + e3 + e4 + e5 + e6 + e7 + e8);
    lemma_apply_concat(s, e1 + e2 + e3 + e4 + e5 + e6 + e7, e8);
    lemma_apply_concat(s, e1 + e2 + e3 + e4 + e5 + e6, e7);
    lemma_apply_concat(s, e1 + e2 + e3 + e4 + e5, e6);
    lemma_apply_concat(s, e1 + e2 + e3 + e4, e5);
    lemma_apply_concat(s, e1 + e2 + e3, e4);
    lemma_apply_concat(s, e1 + e2, e3);
    lemma_apply_concat(s, e1, e2);
    lemma_apply_one(s, e1);
    let s1 = apply_edits(s, e1);
    lemma_apply_one(s1, e2);
    let s2 = apply_edits(s1, e2);
    lemma_apply_one(s2, e3);
    let s3 = apply_edits(s2, e3);
    lemma_apply_one(s3, e4);
    let s4 = apply_edits(s3, e4);
    lemma_apply_one(s4, e5);
    let s5 = apply_edits(s4, e5);
    lemma_apply_one(s5, e6);
    let s6 = apply_edits(s5, e6);
    lemma_apply_one(s6, e7);
    let s7 = apply_edits(s6, e7);
    lemma_apply_one(s7, e8);
    let s8 = apply_edits(s7, e8);
    assert(s1 == StoredSettings { default_k: numeric_after(s.default_k, o.default_k), ..s });
    assert(s2 == StoredSettings { default_n: numeric_after(s.default_n, o.default_n), ..s1 });
    assert(s3 == StoredSettings { fp32: settings_after(s, o).fp32, ..s2 });
    assert(s4 == StoredSettings { pool_factor: numeric_after(s.pool_factor, o.pool_factor), ..s3 });
    assert(s5 == StoredSettings {
        parallel_sessions: numeric_after(s.parallel_sessions, o.parallel_sessions),
        ..s4
    });
    assert(s6 == StoredSettings { batch_size: numeric_after(s.batch_size, o.batch_size), ..s5 });
    assert(s7 == StoredSettings {
        max_recursion_depth: numeric_after(s.max_recursion_depth, o.max_recursion_depth),
        ..s6
    });
    assert(s8 == StoredSettings { verbose: settings_after(s, o).verbose, ..s7 });
}


/// `config` shows the configuration only when its options change nothing: whenever the
/// plan is to show, every stored settings are left exactly as they were.
pub proof fn lemma_show_changes_nothing(o: ConfigOptions, s: StoredSettings)
    requires
        no_option(o),
    ensures
        settings_after(s, o) == s,
{
}

/// Each numeric option that is given changes its setting in some stored settings, and
/// so does each precision and verbosity flag: an option that is given is never ignored.
pub proof fn lemma_given_option_changes(o: ConfigOptions)
    ensures
        o.default_k is Some ==> settings_after(unset_settings(o.default_k), o).default_k
            != unset_settings(o.default_k).default_k,
        o.default_n is Some ==> settings_after(unset_settings(o.default_n), o).default_n
            != unset_settings(o.default_n).default_n,
        o.pool_factor is Some ==> settings_after(unset_settings(o.pool_factor), o).pool_factor
            != unset_settings(o.pool_factor).pool_factor,
        o.parallel_sessions is Some ==> settings_after(
            unset_settings(o.parallel_sessions),
            o,
        ).parallel_sessions != unset_settings(o.parallel_sessions).parallel_sessions,
        o.batch_size is Some ==> settings_after(unset_settings(o.batch_size), o).batch_size
            != unset_settings(o.batch_size).batch_size,
        o.max_recursion_depth is Some ==> settings_after(
            unset_settings(o.max_recursion_depth),
            o,
        ).max_recursion_depth != unset_settings(o.max_recursion_depth).max_recursion_depth,
        (o.fp32 || o.int8) ==> settings_after(unset_settings(None), o).fp32 != unset_settings(
            None,
        ).fp32,
        (o.verbose || o.no_verbose) ==> settings_after(unset_settings(None), o).verbose
            != unset_settings(None).verbose,
{
}

/// Stored settings that a given option always changes: each numeric setting holds 1
/// when `v` asks for a reset (0) and nothing when `v` sets a value; the precision is
/// stored as full and the verbosity as quiet, which either flag of their pair replaces.
pub open spec fn unset_settings(v: Option<usize>) -> StoredSettings {
    let x = match v {
        Some(k) => if k == 0 {
            Some(1usize)
        } else {
            None
        },
        None => None,
    };
    StoredSettings {
        default_k: x,
        default_n: x,
        fp32: Some(true),
        pool_factor: x,
        parallel_sessions: x,
        batch_size: x,
        max_recursion_depth: x,
        verbose: Some(false),
    }
}

} // verus!
