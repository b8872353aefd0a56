//! The command line of the orchestrator.

use crate::copied::opt_view;
use crate::names::{kin, kin_name};
use crate::numbers::{decimal, law_decimal_reads_back, parse_usize, unsigned_of};
use crate::text::{same, starts_with, texts};
use vstd::prelude::*;
use vstd::string::StringExecFns;

verus! {

/// The model that is asked for where none is named.
pub open spec fn default_model(family: Seq<char>) -> Seq<char> {
    kin(family, "-opus-4-7"@)
}

/// The model that the command-line program is asked for where none is named.
pub open spec fn default_cli_model(family: Seq<char>) -> Seq<char> {
    kin(family, "-haiku-4-5-20251001"@)
}

/// The model that the command-line program is asked for where none is named.
pub fn default_cli_model_name(family: &str) -> (r: String)
    ensures
        r@ == default_cli_model(family@),
{
    kin_name(family, "-haiku-4-5-20251001")
}

pub const DEFAULT_MAX_ITER: usize = 10;

/// What a run is asked for.
#[derive(Debug, PartialEq)]
pub struct Args {
    pub workspace: String,
    pub source: String,
    pub model: String,
    pub local_model: Option<String>,
    pub ollama_host: Option<String>,
    pub lmstudio_host: Option<String>,
    pub lmstudio_model: Option<String>,
    pub claude_cli_model: Option<String>,
    pub gemini_key: Option<String>,
    pub max_iter: usize,
}

/// What a run is asked for, by its contents. A run needs a workspace and a source; until both
/// have been read, they may be missing.
pub struct ArgsView {
    pub workspace: Option<Seq<char>>,
    pub source: Option<Seq<char>>,
    pub model: Seq<char>,
    pub local_model: Option<Seq<char>>,
    pub ollama_host: Option<Seq<char>>,
    pub lmstudio_host: Option<Seq<char>>,
    pub lmstudio_model: Option<Seq<char>>,
    pub claude_cli_model: Option<Seq<char>>,
    pub gemini_key: Option<Seq<char>>,
    pub max_iter: usize,
}

impl View for Args {
    type V = ArgsView;

    open spec fn view(&self) -> ArgsView {
        ArgsView {
            workspace: Some(self.workspace@),
            source: Some(self.source@),
            model: self.model@,
            local_model: opt_view(self.local_model),
            ollama_host: opt_view(self.ollama_host),
            lmstudio_host: opt_view(self.lmstudio_host),
            lmstudio_model: opt_view(self.lmstudio_model),
            claude_cli_model: opt_view(self.claude_cli_model),
            gemini_key: opt_view(self.gemini_key),
            max_iter: self.max_iter,
        }
    }
}

/// What the environment says of a run.
#[derive(Debug)]
pub struct Environment {
    /// `REWRITER_MODEL_FAMILY`, the name that the usual models and their program go by.
    pub family: String,
    /// `REWRITER_LMSTUDIO_HOST`
    pub lmstudio_host: Option<String>,
    /// `REWRITER_LMSTUDIO_MODEL`
    pub lmstudio_model: Option<String>,
    /// `REWRITER_CLAUDE_CLI_MODEL`
    pub claude_cli_model: Option<String>,
    /// `REWRITER_USE_CLAUDE_CLI`
    pub use_claude_cli: Option<String>,
    /// `GEMINI_API_KEY`
    pub gemini_key: Option<String>,
}

struct Draft {
    workspace: Option<String>,
    source: Option<String>,
    model: String,
    local_model: Option<String>,
    ollama_host: Option<String>,
    lmstudio_host: Option<String>,
    lmstudio_model: Option<String>,
    claude_cli_model: Option<String>,
    gemini_key: Option<String>,
    max_iter: usize,
}

impl View for Draft {
    type V = ArgsView;

    closed spec fn view(&self) -> ArgsView {
        ArgsView {
            workspace: opt_view(self.workspace),
            source: opt_view(self.source),
            model: self.model@,
            local_model: opt_view(self.local_model),
            ollama_host: opt_view(self.ollama_host),
            lmstudio_host: opt_view(self.lmstudio_host),
            lmstudio_model: opt_view(self.lmstudio_model),
            claude_cli_model: opt_view(self.claude_cli_model),
            gemini_key: opt_view(self.gemini_key),
            max_iter: self.max_iter,
        }
    }
}

/// What is set before any argument is read.
pub open spec fn preset(env: Environment) -> ArgsView {
    ArgsView {
        workspace: None,
        source: None,
        model: default_model(env.family@),
        local_model: None,
        ollama_host: None,
        lmstudio_host: opt_view(env.lmstudio_host),
        lmstudio_model: opt_view(env.lmstudio_model),
        claude_cli_model: match opt_view(env.claude_cli_model) {
            Some(model) => Some(model),
            None => if opt_view(env.use_claude_cli) == Some("1"@) {
                Some(default_cli_model(env.family@))
            } else {
                None
            },
        },
        gemini_key: opt_view(env.gemini_key),
        max_iter: DEFAULT_MAX_ITER,
    }
}

/// The argument at `i`, if there is one.
pub open spec fn argument(raw: Seq<Seq<char>>, i: int) -> Option<Seq<char>> {
    if 0 <= i < raw.len() {
        Some(raw[i])
    } else {
        None
    }
}

/// Whether a model is named behind the flag at `i`: the next argument is no flag.
pub open spec fn names_model(raw: Seq<Seq<char>>, i: int) -> bool {
    0 <= i && i + 1 < raw.len() && !"-"@.is_prefix_of(raw[i + 1])
}

/// The number of iterations that an argument stands for.
pub open spec fn iterations(value: Option<Seq<char>>) -> usize {
    match value {
        None => DEFAULT_MAX_ITER,
        Some(text) => match unsigned_of(text, usize::MAX as nat) {
            Some(n) => n as usize,
            None => DEFAULT_MAX_ITER,
        },
    }
}

/// What is set once the arguments from `i` on have been read.
pub open spec fn arguments_from(
    family: Seq<char>,
    raw: Seq<Seq<char>>,
    i: int,
    d: ArgsView,
) -> ArgsView
    decreases raw.len() + 1 - i,
{
    if i < 0 || i >= raw.len() {
        d
    } else {
        let value = argument(raw, i + 1);
        if raw[i] == "--workspace"@ || raw[i] == "-w"@ {
            arguments_from(family, raw, i + 2, ArgsView { workspace: value, ..d })
        } else if raw[i] == "--source"@ || raw[i] == "-s"@ {
            arguments_from(family, raw, i + 2, ArgsView { source: value, ..d })
        } else if raw[i] == "--model"@ {
            arguments_from(
                family,
                raw,
                i + 2,
                match value {
                    Some(model) => ArgsView { model, ..d },
                    None => d,
                },
            )
        } else if raw[i] == "--local-model"@ {
            arguments_from(family, raw, i + 2, ArgsView { local_model: value, ..d })
        } else if raw[i] == "--ollama-host"@ {
            arguments_from(family, raw, i + 2, ArgsView { ollama_host: value, ..d })
        } else if raw[i] == "--max-iter"@ {
            arguments_from(family, raw, i + 2, ArgsView { max_iter: iterations(value), ..d })
        } else if raw[i] == "--lmstudio-host"@ {
            arguments_from(family, raw, i + 2, ArgsView { lmstudio_host: value, ..d })
        } else if raw[i] == "--lmstudio-model"@ {
            arguments_from(family, raw, i + 2, ArgsView { lmstudio_model: value, ..d })
        } else if raw[i] == "--"@ + kin(family, "-cli"@) {
            if names_model(raw, i) {
                arguments_from(family, raw, i + 2, ArgsView { claude_cli_model: value, ..d })
            } else {
                arguments_from(
                    family,
                    raw,
                    i + 1,
                    ArgsView { claude_cli_model: Some(default_cli_model(family)), ..d },
                )
            }
        } else if raw[i] == "--gemini-key"@ {
            arguments_from(family, raw, i + 2, ArgsView { gemini_key: value, ..d })
        } else {
            arguments_from(family, raw, i + 1, d)
        }
    }
}

/// The argument at `i`, if there is one.
fn argument_at(raw: &[String], i: usize) -> (r: Option<String>)
    ensures
        opt_view(r) == argument(texts(raw@), i as int),
{
    if i < raw.len() {
        Some(raw[i].clone())
    } else {
        None
    }
}

fn preset_for(env: Environment) -> (r: Draft)
    ensures
        r@ == preset(env),
{
    let family = env.family.as_str();
    let claude_cli_model = match env.claude_cli_model {
        Some(model) => Some(model),
        None => match env.use_claude_cli {
            Some(text) => if same(text.as_str(), "1") {
                Some(default_cli_model_name(family))
            } else {
                None
            },
            None => None,
        },
    };
    Draft {
        workspace: None,
        source: None,
        model: kin_name(family, "-opus-4-7"),
        local_model: None,
        ollama_host: None,
        lmstudio_host: env.lmstudio_host,
        lmstudio_model: env.lmstudio_model,
        claude_cli_model,
        gemini_key: env.gemini_key,
        max_iter: DEFAULT_MAX_ITER,
    }
}

/// What a run is asked for, by its command line (without the name of the program) and its
/// environment.
pub fn parse_args(raw: &[String], env: Environment) -> (r: Result<Args, &'static str>)
    ensures
        match r {
            Ok(args) => args@ == arguments_from(env.family@, texts(raw@), 0, preset(env)),
            Err(e) => {
                let read = arguments_from(env.family@, texts(raw@), 0, preset(env));
                if read.workspace is None {
                    e@ == "--workspace <dir> required"@
                } else {
                    read.source is None && e@ == "--source <dir> required"@
                }
            },
        },
{
    let ghost all = texts(raw@);
    let ghost whole = arguments_from(env.family@, all, 0, preset(env));
    let family = env.family.clone();
    let mut d = preset_for(env);
    let n: usize = raw.len();
    let mut i: usize = 0;
    while i < n
        invariant
            n == raw@.len() == all.len(),
            all == texts(raw@),
            i <= n,
            family@ == env.family@,
            arguments_from(env.family@, all, i as int, d@) == whole,
        decreases n - i,
    {
        reveal_with_fuel(arguments_from, 2);
        let flag = raw[i].as_str();
        assert(all[i as int] == flag@);
        let value = argument_at(raw, i + 1);
        let mut taken = true;
        if same(flag, "--workspace") || same(flag, "-w") {
            d.workspace = value;
        } else if same(flag, "--source") || same(flag, "-s") {
            d.source = value;
        } else if same(flag, "--model") {
            if let Some(model) = value {
                d.model = model;
            }
        } else if same(flag, "--local-model") {
            d.local_model = value;
        } else if same(flag, "--ollama-host") {
            d.ollama_host = value;
        } else if same(flag, "--max-iter") {
            d.max_iter = match value {
                None => DEFAULT_MAX_ITER,
                Some(text) => match parse_usize(text.as_str()) {
                    Some(count) => count,
                    None => DEFAULT_MAX_ITER,
                },
            };
        } else if same(flag, "--lmstudio-host") {
            d.lmstudio_host = value;
        } else if same(flag, "--lmstudio-model") {
            d.lmstudio_model = value;
        } else if same(flag, "--".to_owned().concat(kin_name(family.as_str(), "-cli").as_str()).as_str()) {
            if i + 1 < n && !starts_with(raw[i + 1].as_str(), "-") {
                assert(all[i + 1] == raw@[i + 1]@);
                d.claude_cli_model = value;
            } else {
                d.claude_cli_model = Some(default_cli_model_name(family.as_str()));
                taken = false;
            }
        } else if same(flag, "--gemini-key") {
            d.gemini_key = value;
        } else {
            taken = false;
        }
        if taken {
            if i + 1 == n {
                i = n;
            } else {
                i += 2;
            }
        } else {
            i += 1;
        }
    }
    let workspace = match d.workspace {
        Some(dir) => dir,
        None => {
            return Err("--workspace <dir> required");
        },
    };
    let source = match d.source {
        Some(dir) => dir,
        None => {
            return Err("--source <dir> required");
        },
    };
    Ok(
        Args {
            workspace,
            source,
            model: d.model,
            local_model: d.local_model,
            ollama_host: d.ollama_host,
            lmstudio_host: d.lmstudio_host,
            lmstudio_model: d.lmstudio_model,
            claude_cli_model: d.claude_cli_model,
            gemini_key: d.gemini_key,
            max_iter: d.max_iter,
        },
    )
}

/// Whether an argument is a flag that takes the next argument as its value.
pub open spec fn takes_value(flag: Seq<char>) -> bool {
    ||| flag == "--workspace"@ || flag == "-w"@
    ||| flag == "--source"@ || flag == "-s"@
    ||| flag == "--model"@
    ||| flag == "--local-model"@
    ||| flag == "--ollama-host"@
    ||| flag == "--max-iter"@
    ||| flag == "--lmstudio-host"@
    ||| flag == "--lmstudio-model"@
    ||| flag == "--gemini-key"@
}

/// An argument that is no flag is passed over, and changes nothing.
pub proof fn law_other_arguments_are_passed_over(
    family: Seq<char>,
    raw: Seq<Seq<char>>,
    i: int,
    d: ArgsView,
)
    requires
        0 <= i < raw.len(),
        !takes_value(raw[i]),
        raw[i] != "--"@ + family + "-cli"@,
    ensures
        arguments_from(family, raw, i, d) == arguments_from(family, raw, i + 1, d),
{
    reveal_strlit("--");
    assert("--"@ + kin(family, "-cli"@) =~= "--"@ + family + "-cli"@);
}

/// A flag sets what it is named after to the argument behind it, keeps all else as it is, and the
/// argument behind it is not read as a flag.
pub proof fn law_flags_set_what_they_name(
    family: Seq<char>,
    raw: Seq<Seq<char>>,
    i: int,
    d: ArgsView,
)
    requires
        0 <= i,
        i + 1 < raw.len(),
    ensures
        ({
            let r = arguments_from(family, raw, i, d);
            let v = raw[i + 1];
            &&& raw[i] == "--workspace"@ || raw[i] == "-w"@ ==> r == arguments_from(
                family,
                raw,
                i + 2,
                ArgsView { workspace: Some(v), ..d },
            )
            &&& raw[i] == "--source"@ || raw[i] == "-s"@ ==> r == arguments_from(
                family,
                raw,
                i + 2,
                ArgsView { source: Some(v), ..d },
            )
            &&& raw[i] == "--model"@ ==> r == arguments_from(
                family,
                raw,
                i + 2,
                ArgsView { model: v, ..d },
            )
            &&& raw[i] == "--local-model"@ ==> r == arguments_from(
                family,
                raw,
                i + 2,
                ArgsView { local_model: Some(v), ..d },
            )
            &&& raw[i] == "--ollama-host"@ ==> r == arguments_from(
                family,
                raw,
                i + 2,
                ArgsView { ollama_host: Some(v), ..d },
            )
            &&& raw[i] == "--lmstudio-host"@ ==> r == arguments_from(
                family,
                raw,
                i + 2,
                ArgsView { lmstudio_host: Some(v), ..d },
            )
            &&& raw[i] == "--lmstudio-model"@ ==> r == arguments_from(
                family,
                raw,
                i + 2,
                ArgsView { lmstudio_model: Some(v), ..d },
            )
            &&& raw[i] == "--gemini-key"@ ==> r == arguments_from(
                family,
                raw,
                i + 2,
                ArgsView { gemini_key: Some(v), ..d },
            )
        }),
{
    reveal_strlit("--workspace");
    reveal_strlit("-w");
    reveal_strlit("--source");
    reveal_strlit("-s");
    reveal_strlit("--model");
    reveal_strlit("--local-model");
    reveal_strlit("--ollama-host");
    reveal_strlit("--max-iter");
    reveal_strlit("--lmstudio-host");
    reveal_strlit("--lmstudio-model");
    reveal_strlit("--gemini-key");
    reveal_strlit("--");
    reveal_strlit("-cli");
    let cli = "--"@ + kin(family, "-cli"@);
    assert(cli.len() == family.len() + 6);
    assert(cli.last() == 'i');
    assert("-w"@[1] == 'w' && "-s"@[1] == 's');
    assert("--local-model"@[2] == 'l' && "--ollama-host"@[2] == 'o');
    assert("--gemini-key"@.last() == 'y');
    assert("--workspace"@.len() == 11 && "-w"@.len() == 2 && "--source"@.len() == 8);
    assert("-s"@.len() == 2 && "--model"@.len() == 7 && "--local-model"@.len() == 13);
    assert("--ollama-host"@.len() == 13 && "--max-iter"@.len() == 10);
    assert("--lmstudio-host"@.len() == 15 && "--lmstudio-model"@.len() == 16);
    assert("--gemini-key"@.len() == 12);
}

/// The number of iterations is the one that is written, and ten where none can be read.
pub proof fn law_iterations_are_read(n: usize)
    ensures
        iterations(Some(decimal(n as nat))) == n,
        iterations(None) == 10,
{
    law_decimal_reads_back(n as nat, usize::MAX as nat);
}

} // verus!
