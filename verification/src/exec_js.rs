//! Running code that a guest hands over: how it is started, and what the guest
//! gets of its outcome.
use crate::imports;
use crate::json;
use crate::json::{Json, JsonTree};
use crate::text;
use vstd::prelude::*;
use vstd::string::*;

verus! {

/// What marks the result of code in its output.
pub const RESULT_SENTINEL: &'static str = "__GM_RESULT__";

/// What marks the result and the memory use of code in its output.
pub const META_SENTINEL: &'static str = "__GM_META__";

/// What marks the profile of code in its output.
pub const PROFILE_SENTINEL: &'static str = "__GM_PROFILE__";

/// What stands before code that is run for its result.
pub const DEFAULT_HEAD: &'static str = "(async () => {\n  try {\n    const __r = await (async () => {\n";

/// What stands behind code that is run for its result.
pub const DEFAULT_TAIL: &'static str = "\n})();\n    try { console.log('__GM_RESULT__' + JSON.stringify(__r === undefined ? null : __r)); }\n    catch (__se) { console.log('__GM_RESULT__' + JSON.stringify({ __unserializable: String(__se && __se.message || __se) })); }\n  } catch (__e) {\n    console.error(String(__e && __e.stack || __e));\n    process.exitCode = 1;\n  }\n})();\n";

/// What stands before code whose memory use is measured.
pub const MEM_HEAD: &'static str = "const { performance: __perf } = require('perf_hooks');\n(async () => {\n  const __mb = process.memoryUsage(); const __w0 = __perf.now();\n  let __r = null, __err = null;\n  try { __r = await (async () => {\n";

/// What stands behind code whose memory use is measured.
pub const MEM_TAIL: &'static str = "\n})(); } catch (e) { __err = { name: e && e.name || 'Error', message: String(e && e.message || e), stack: String(e && e.stack || '') }; }\n  const __wallMs = Math.round((__perf.now() - __w0) * 1000) / 1000; const __ma = process.memoryUsage();\n  const __mem = { rss_mb: Math.round(__ma.rss/10485.76)/100, heapUsed_mb: Math.round(__ma.heapUsed/10485.76)/100, heapUsed_delta_mb: Math.round((__ma.heapUsed-__mb.heapUsed)/10485.76)/100, external_mb: Math.round(__ma.external/10485.76)/100 };\n  process.stdout.write('__GM_META__' + JSON.stringify({ result: __r === undefined ? null : __r, error: __err, mem: __mem, wall_ms: __wallMs }));\n  if (__err) process.exitCode = 1;\n})();\n";

/// What stands before the sampling interval of code that is profiled.
pub const PROFILE_HEAD: &'static str = "function aggregateCpuProfile(profile, topN, isBrowserCtx) {\n  if (!profile || !Array.isArray(profile.nodes) || !Array.isArray(profile.samples)) {\n    return { timeframe: null, culprits: [] };\n  }\n  const byId = new Map();\n  for (const node of profile.nodes) byId.set(node.id, node);\n  const deltas = Array.isArray(profile.timeDeltas) ? profile.timeDeltas : [];\n  const selfUs = new Map();\n  const sampleCount = profile.samples.length;\n  for (let i = 0; i < profile.samples.length; i++) {\n    const node = byId.get(profile.samples[i]);\n    if (!node) continue;\n    const delta = deltas[i + 1] || deltas[i] || 0;\n    selfUs.set(node.id, (selfUs.get(node.id) || 0) + Math.abs(delta));\n  }\n  const totalUs = Array.from(selfUs.values()).reduce((a, b) => a + b, 0);\n  const acc = new Map();\n  for (const [id, us] of selfUs.entries()) {\n    const node = byId.get(id);\n    if (!node || !node.callFrame) continue;\n    const cf = node.callFrame;\n    const fn = cf.functionName || '(anonymous)';\n    const loc = `${cf.url || ''}:${cf.lineNumber != null ? cf.lineNumber + 1 : 0}:${cf.columnNumber != null ? cf.columnNumber + 1 : 0}`;\n    const key = `${fn}@${loc}`;\n    const prior = acc.get(key) || { location: loc, function: fn, self_us: 0, hits: 0 };\n    prior.self_us += us;\n    prior.hits += 1;\n    acc.set(key, prior);\n  }\n  const culprits = Array.from(acc.values())\n    .map(c => ({ ...c, self_pct: totalUs > 0 ? Math.round((c.self_us / totalUs) * 10000) / 100 : 0 }))\n    .sort((a, b) => b.self_us - a.self_us)\n    .slice(0, topN);\n  return {\n    timeframe: {\n      start_us: typeof profile.startTime === 'number' ? profile.startTime : 0,\n      end_us: typeof profile.endTime === 'number' ? profile.endTime : 0,\n      total_us: totalUs,\n      sample_count: sampleCount,\n    },\n    culprits,\n  };\n}\nconst __inspector = require('inspector');\nconst { performance: __perf } = require('perf_hooks');\nconst __session = new __inspector.Session();\n__session.connect();\nconst __post = (m, p) => new Promise((res, rej) => __session.post(m, p || {}, (e, r) => e ? rej(e) : res(r)));\n(async () => {\n  let __profile = null, __profileError = null, __userResult = null, __userError = null, __wallMs = 0;\n  const __memBefore = process.memoryUsage();\n  try {\n    await __post('Profiler.enable');\n    await __post('Profiler.setSamplingInterval', { interval: ";

/// What stands between the sampling interval and the code.
pub const PROFILE_START: &'static str = " });\n    await __post('Profiler.start');\n    const __w0 = __perf.now();\n    try { __userResult = await (async () => {\n";

/// What stands between the code and the number of culprits.
pub const PROFILE_STOP: &'static str = "\n})(); } catch (ue) { __userError = String(ue && ue.stack || ue); }\n    __wallMs = Math.round((__perf.now() - __w0) * 1000) / 1000;\n    const __r = await __post('Profiler.stop');\n    __profile = __r && __r.profile || null;\n  } catch (pe) { __profileError = String(pe && pe.message || pe); }\n  const __memAfter = process.memoryUsage();\n  const __agg = __profile ? aggregateCpuProfile(__profile, ";

/// What stands behind the number of culprits.
pub const PROFILE_TAIL: &'static str = ", false) : { timeframe: null, culprits: [] };\n  const __cpuTotalUs = __agg.timeframe ? __agg.timeframe.total_us : 0;\n  const __wallUs = Math.round(__wallMs * 1000);\n  const __mem = { rss_mb: Math.round(__memAfter.rss/10485.76)/100, heapUsed_mb: Math.round(__memAfter.heapUsed/10485.76)/100, heapUsed_delta_mb: Math.round((__memAfter.heapUsed-__memBefore.heapUsed)/10485.76)/100, external_mb: Math.round(__memAfter.external/10485.76)/100 };\n  const __wallVsCpu = { wall_us: __wallUs, cpu_total_sampled_us: __cpuTotalUs, offcpu_us: Math.max(0, __wallUs - __cpuTotalUs), note: 'offcpu_us = inner wall minus on-CPU sampled JS self time = IO/async/GPU/idle the CPU sampler is blind to' };\n  process.stdout.write('__GM_PROFILE__' + JSON.stringify({ result: __userResult, user_error: __userError, profile: __agg, profile_error: __profileError, mem: __mem, wall_vs_cpu: __wallVsCpu }));\n  __session.disconnect();\n})();\n";

/// The shortest time that code may be given, in milliseconds.
pub const EXEC_TIMEOUT_FLOOR_MS: i64 = 100;

/// What code is run for.
#[derive(Debug, Clone, Copy, PartialEq, Eq, Structural)]
pub enum ExecMode {
    Default,
    Mem,
    Profile,
}

/// The programs that run code.
#[derive(Debug, Clone, Copy, PartialEq, Eq, Structural)]
pub enum Program {
    Node,
    Python,
    Bash,
    PowerShell,
    Deno,
}

/// A program and its arguments.
pub struct ExecCommand {
    pub program: Program,
    pub args: Vec<String>,
}

/// How a guest's code is run.
pub struct ExecPlan {
    pub mode: ExecMode,
    pub lang: String,
    pub is_js: bool,
    pub timeout_ms: u64,
    pub command: ExecCommand,
    pub profile_skipped: Option<Json>,
}

// ---------------------------------------------------------------------------
// Planning
// ---------------------------------------------------------------------------
/// The language of the code: `nodejs` unless named.
pub open spec fn lang_of(opts: JsonTree) -> Seq<char> {
    imports::or_default(json::field_str(opts, "lang"@), "nodejs"@)
}

/// Whether a language is JavaScript on node.
pub open spec fn is_js_lang(lang: Seq<char>) -> bool {
    lang == "nodejs"@ || lang == "js"@
}

/// Whether an option is set.
pub open spec fn is_set(opts: JsonTree, k: Seq<char>) -> bool {
    json::field_bool(opts, k) == Some(true)
}

/// What the code is run for: a profile or its memory use, where that is asked
/// for and the language allows it.
pub open spec fn mode_of(opts: JsonTree) -> ExecMode {
    if !is_js_lang(lang_of(opts)) {
        ExecMode::Default
    } else if is_set(opts, "profile"@) {
        ExecMode::Profile
    } else if is_set(opts, "mem"@) {
        ExecMode::Mem
    } else {
        ExecMode::Default
    }
}

/// Why a profile that was asked for is not made, if it is not.
pub open spec fn skipped_profile(opts: JsonTree) -> Option<JsonTree> {
    let lang = lang_of(opts);
    if is_set(opts, "profile"@) && !is_js_lang(lang) {
        Some(
            json::obj2(
                "reason"@,
                JsonTree::Str(
                    "profile requested but lang="@ + lang
                        + " is not js/nodejs; CPU profiling only supported on the node surface"@,
                ),
                "lang"@,
                JsonTree::Str(lang),
            ),
        )
    } else {
        None
    }
}

/// The program that runs a language, if there is one.
pub open spec fn program_for(lang: Seq<char>) -> Option<Program> {
    if is_js_lang(lang) {
        Some(Program::Node)
    } else if lang == "python"@ || lang == "py"@ {
        Some(Program::Python)
    } else if lang == "bash"@ || lang == "sh"@ || lang == "shell"@ {
        Some(Program::Bash)
    } else if lang == "powershell"@ || lang == "ps1"@ {
        Some(Program::PowerShell)
    } else if lang == "deno"@ {
        Some(Program::Deno)
    } else {
        None
    }
}

/// A positive number in the options, or the default.
pub open spec fn positive_or(opts: JsonTree, k: Seq<char>, default: int) -> int {
    match json::field_i64(opts, k) {
        Some(n) => if n > 0 {
            n
        } else {
            default
        },
        None => default,
    }
}

/// The script that runs the code on node.
pub open spec fn node_script(code: Seq<char>, mode: ExecMode, opts: JsonTree) -> Seq<char> {
    match mode {
        ExecMode::Default => DEFAULT_HEAD@ + code + DEFAULT_TAIL@,
        ExecMode::Mem => MEM_HEAD@ + code + MEM_TAIL@,
        ExecMode::Profile => PROFILE_HEAD@ + text::signed_decimal(
            positive_or(opts, "sampleIntervalUs"@, 100),
        ) + PROFILE_START@ + code + PROFILE_STOP@ + text::signed_decimal(
            positive_or(opts, "profileTopN"@, 20),
        ) + PROFILE_TAIL@,
    }
}

/// The arguments with which a program runs the code.
pub open spec fn program_args(
    program: Program,
    code: Seq<char>,
    mode: ExecMode,
    opts: JsonTree,
) -> Seq<Seq<char>> {
    match program {
        Program::Node => seq!["-e"@, node_script(code, mode, opts)],
        Program::Python => seq!["-c"@, code],
        Program::Bash => seq!["-c"@, code],
        Program::PowerShell => seq!["-NoProfile"@, "-NonInteractive"@, "-Command"@, code],
        Program::Deno => seq!["eval"@, code],
    }
}

fn positive_field(opts: &Json, k: &str, default: i64) -> (r: i64)
    ensures
        r == positive_or(json::tree(*opts), k@, default as int),
{
    match opts.i64_field(k) {
        Some(n) => if n > 0 {
            n
        } else {
            default
        },
        None => default,
    }
}

fn node_source(code: &str, mode: ExecMode, opts: &Json) -> (r: String)
    ensures
        r@ == node_script(code@, mode, json::tree(*opts)),
{
    match mode {
        ExecMode::Default => text::add3(DEFAULT_HEAD, code, DEFAULT_TAIL),
        ExecMode::Mem => text::add3(MEM_HEAD, code, MEM_TAIL),
        ExecMode::Profile => {
            let interval = text::i64_text(positive_field(opts, "sampleIntervalUs", 100));
            let top = text::i64_text(positive_field(opts, "profileTopN", 20));
            let head = text::add5(
                PROFILE_HEAD,
                interval.as_str(),
                PROFILE_START,
                code,
                PROFILE_STOP,
            );
            text::add3(head.as_str(), top.as_str(), PROFILE_TAIL)
        },
    }
}

fn pair(a: &str, b: &str) -> (r: Vec<String>)
    ensures
        text::string_views(r@) == seq![a@, b@],
{
    let mut out: Vec<String> = Vec::new();
    out.push(a.to_owned());
    out.push(b.to_owned());
    assert(text::string_views(out@) =~= seq![a@, b@]);
    out
}

fn program_of(lang: &str) -> (r: Option<Program>)
    ensures
        r == program_for(lang@),
{
    if text::str_eq(lang, "nodejs") || text::str_eq(lang, "js") {
        Some(Program::Node)
    } else if text::str_eq(lang, "python") || text::str_eq(lang, "py") {
        Some(Program::Python)
    } else if text::str_eq(lang, "bash") || text::str_eq(lang, "sh") || text::str_eq(lang, "shell") {
        Some(Program::Bash)
    } else if text::str_eq(lang, "powershell") || text::str_eq(lang, "ps1") {
        Some(Program::PowerShell)
    } else if text::str_eq(lang, "deno") {
        Some(Program::Deno)
    } else {
        None
    }
}

/// The program and the arguments that run code of a language.
pub fn build_command_mode(lang: &str, code: &str, mode: ExecMode, opts: &Json) -> (r: Option<
    ExecCommand,
>)
    ensures
        r is Some <==> program_for(lang@) is Some,
        r matches Some(c) ==> program_for(lang@) == Some(c.program) && text::string_views(c.args@)
            == program_args(c.program, code@, mode, json::tree(*opts)),
{
    let program = match program_of(lang) {
        Some(p) => p,
        None => {
            return None;
        },
    };
    let args = match program {
        Program::Node => pair("-e", node_source(code, mode, opts).as_str()),
        Program::Python => pair("-c", code),
        Program::Bash => pair("-c", code),
        Program::PowerShell => {
            let mut out: Vec<String> = Vec::new();
            out.push("-NoProfile".to_owned());
            out.push("-NonInteractive".to_owned());
            out.push("-Command".to_owned());
            out.push(code.to_owned());
            assert(text::string_views(out@) =~= seq![
                "-NoProfile"@,
                "-NonInteractive"@,
                "-Command"@,
                code@,
            ]);
            out
        },
        Program::Deno => pair("eval", code),
    };
    Some(ExecCommand { program, args })
}

/// The program and the arguments that run code for its result.
pub fn build_command(lang: &str, code: &str) -> (r: Option<ExecCommand>)
    ensures
        r is Some <==> program_for(lang@) is Some,
        r matches Some(c) ==> program_for(lang@) == Some(c.program) && text::string_views(c.args@)
            == program_args(c.program, code@, ExecMode::Default, json::no_fields()),
{
    build_command_mode(lang, code, ExecMode::Default, &json::object())
}

/// How running code is refused, if it is: without a time, with too short a
/// time, or in a language that no program runs, in this order.
pub open spec fn exec_refusal(opts: JsonTree) -> Option<JsonTree> {
    let no = JsonTree::Bool(false);
    match json::field_i64(opts, "timeoutMs"@) {
        None => Some(
            json::obj3(
                "ok"@,
                no,
                "error"@,
                JsonTree::Str("missing timeoutMs"@),
                "required"@,
                JsonTree::Str("positive integer milliseconds"@),
            ),
        ),
        Some(ms) => if ms < EXEC_TIMEOUT_FLOOR_MS {
            Some(
                json::obj4(
                    "ok"@,
                    no,
                    "error"@,
                    JsonTree::Str("timeoutMs below floor"@),
                    "min"@,
                    json::uint_tree(100),
                    "received"@,
                    json::int_tree(ms),
                ),
            )
        } else if program_for(lang_of(opts)) is None {
            Some(
                json::obj2(
                    "ok"@,
                    no,
                    "error"@,
                    JsonTree::Str("unsupported lang: "@ + lang_of(opts)),
                ),
            )
        } else {
            None
        },
    }
}

fn is_option_set(opts: &Json, k: &str) -> (r: bool)
    ensures
        r == is_set(json::tree(*opts), k@),
{
    match opts.bool_field(k) {
        Some(b) => b,
        None => false,
    }
}

/// Plans how code is run, or refuses it.
pub fn exec_plan(code: &str, opts: &Json) -> (r: Result<ExecPlan, Json>)
    ensures
        match r {
            Ok(p) => {
                let t = json::tree(*opts);
                &&& exec_refusal(t) is None
                &&& p.mode == mode_of(t)
                &&& p.lang@ == lang_of(t)
                &&& p.is_js == is_js_lang(lang_of(t))
                &&& json::field_i64(t, "timeoutMs"@) == Some(p.timeout_ms as int)
                &&& program_for(lang_of(t)) == Some(p.command.program)
                &&& text::string_views(p.command.args@) == program_args(
                    p.command.program,
                    code@,
                    mode_of(t),
                    t,
                )
                &&& imports::opt_tree(p.profile_skipped) == skipped_profile(t)
            },
            Err(j) => exec_refusal(json::tree(*opts)) == Some(json::tree(j)),
        },
{
    let lang = match opts.str_field("lang") {
        Some(l) => l,
        None => "nodejs",
    };
    let no = json::boolean(false);
    let ms: i64 = match opts.i64_field("timeoutMs") {
        Some(ms) => ms,
        None => {
            return Err(
                json::object3(
                    "ok",
                    no,
                    "error",
                    json::str("missing timeoutMs"),
                    "required",
                    json::str("positive integer milliseconds"),
                ),
            );
        },
    };
    if ms < EXEC_TIMEOUT_FLOOR_MS {
        return Err(
            json::object4(
                "ok",
                no,
                "error",
                json::str("timeoutMs below floor"),
                "min",
                json::uint(100),
                "received",
                json::signed(ms),
            ),
        );
    }
    let is_js = text::str_eq(lang, "nodejs") || text::str_eq(lang, "js");
    let wants_profile = is_option_set(opts, "profile");
    let mode = if !is_js {
        ExecMode::Default
    } else if wants_profile {
        ExecMode::Profile
    } else if is_option_set(opts, "mem") {
        ExecMode::Mem
    } else {
        ExecMode::Default
    };
    let profile_skipped = if wants_profile && !is_js {
        let reason = text::add3(
            "profile requested but lang=",
            lang,
            " is not js/nodejs; CPU profiling only supported on the node surface",
        );
        Some(json::object2("reason", json::str(reason.as_str()), "lang", json::str(lang)))
    } else {
        None
    };
    match build_command_mode(lang, code, mode, opts) {
        Some(command) => Ok(
            ExecPlan {
                mode,
                lang: lang.to_owned(),
                is_js,
                timeout_ms: ms as u64,
                command,
                profile_skipped,
            },
        ),
        None => Err(
            json::object2(
                "ok",
                no,
                "error",
                json::str(text::add2("unsupported lang: ", lang).as_str()),
            ),
        ),
    }
}

// ---------------------------------------------------------------------------
// Outcomes
// ---------------------------------------------------------------------------
/// What a guest gets when the program could not be started.
pub fn spawn_failed_reply(error: &str) -> (r: Json)
    ensures
        json::tree(r) == json::obj5(
            "ok"@,
            JsonTree::Bool(false),
            "stdout"@,
            JsonTree::Str(""@),
            "stderr"@,
            JsonTree::Str(error@),
            "exit_code"@,
            json::int_tree(-1),
            "spawn_error"@,
            json::obj1("message"@, JsonTree::Str(error@)),
        ),
{
    json::object5(
        "ok",
        json::boolean(false),
        "stdout",
        json::str(""),
        "stderr",
        json::str(error),
        "exit_code",
        json::signed(-1),
        "spawn_error",
        json::object1("message", json::str(error)),
    )
}

/// What a guest is told of code that still runs.
pub const STILL_RUNNING_NOTE: &'static str = "this call hit its timeoutMs still running -- it was NOT killed, it is alive in the background task registry as task_id. Decide: `task-output {id}` to keep it running and poll progress/result later (the queue is already free, this worker returned immediately), or `task-stop {id}` to kill it now. It does not run forever unattended -- dispatch one of those two, do not leave it un-decided.";

/// What a guest gets when its code still runs after its time.
pub fn still_running_reply(task_id: &str, elapsed_ms: u64) -> (r: Json)
    ensures
        json::tree(r) == json::with_field(
            json::obj5(
                "ok"@,
                JsonTree::Bool(true),
                "timed_out"@,
                JsonTree::Bool(true),
                "in_progress"@,
                JsonTree::Bool(true),
                "task_id"@,
                JsonTree::Str(task_id@),
                "elapsed_ms"@,
                json::uint_tree(elapsed_ms as nat),
            ),
            "decision_required"@,
            JsonTree::Str(STILL_RUNNING_NOTE@),
        ),
{
    json::object5(
        "ok",
        json::boolean(true),
        "timed_out",
        json::boolean(true),
        "in_progress",
        json::boolean(true),
        "task_id",
        json::str(task_id),
        "elapsed_ms",
        json::uint(elapsed_ms),
    ).with("decision_required", json::str(STILL_RUNNING_NOTE))
}

/// What the code wrote, and the part behind the mark that holds its result, if
/// there is one. Code that is run for its result may write on behind that part,
/// from the next line.
pub open spec fn split_output(mode: ExecMode, is_js: bool, stdout: Seq<char>) -> (
    Seq<char>,
    Option<Seq<char>>,
) {
    match mode {
        ExecMode::Profile => match text::cut_text(stdout, PROFILE_SENTINEL@) {
            Some((before, tail)) => (before, Some(tail)),
            None => (stdout, None),
        },
        ExecMode::Mem => match text::cut_text(stdout, META_SENTINEL@) {
            Some((before, tail)) => (before, Some(tail)),
            None => (stdout, None),
        },
        ExecMode::Default => if is_js {
            match text::rcut_text(stdout, RESULT_SENTINEL@) {
                Some((before, tail)) => {
                    let all = before + text::after_char(tail, '\n');
                    (
                        if all.len() > 0 && all.last() == '\n' {
                            all.drop_last()
                        } else {
                            all
                        },
                        Some(text::before_char(tail, '\n')),
                    )
                },
                None => (stdout, None),
            }
        } else {
            (stdout, None)
        },
    }
}

/// Parts the result of code from what it wrote.
pub fn split_stdout(mode: ExecMode, is_js: bool, stdout: &str) -> (r: (String, Option<String>))
    ensures
        (r.0@, text::opt_string_view(r.1)) == split_output(mode, is_js, stdout@),
{
    match mode {
        ExecMode::Profile => match text::cut_at_text(stdout, PROFILE_SENTINEL) {
            Some((before, tail)) => (before.to_owned(), Some(tail.to_owned())),
            None => (stdout.to_owned(), None),
        },
        ExecMode::Mem => match text::cut_at_text(stdout, META_SENTINEL) {
            Some((before, tail)) => (before.to_owned(), Some(tail.to_owned())),
            None => (stdout.to_owned(), None),
        },
        ExecMode::Default => {
            if !is_js {
                return (stdout.to_owned(), None);
            }
            match text::rcut_at_text(stdout, RESULT_SENTINEL) {
                Some((before, tail)) => {
                    let (line, rest) = text::cut(tail, '\n');
                    let all = match rest {
                        Some(t) => text::add2(before, t),
                        None => before.to_owned(),
                    };
                    assert(all@ =~= before@ + text::after_char(tail@, '\n'));
                    let n: usize = all.as_str().unicode_len();
                    let clean = if n > 0 && all.as_str().get_char(n - 1) == '\n' {
                        assert(all@.subrange(0, n - 1) =~= all@.drop_last());
                        all.as_str().substring_char(0, n - 1).to_owned()
                    } else {
                        all
                    };
                    (clean, Some(line.to_owned()))
                },
                None => (stdout.to_owned(), None),
            }
        },
    }
}

/// A field of what was read, or the default.
pub open spec fn field_or(parsed: Option<JsonTree>, k: Seq<char>, default: JsonTree) -> JsonTree {
    match parsed {
        Some(p) => match json::field(p, k) {
            Some(f) => f,
            None => default,
        },
        None => default,
    }
}

/// Whether what was read names an error under `k`.
pub open spec fn names_error(parsed: Option<JsonTree>, k: Seq<char>) -> bool {
    match parsed {
        Some(p) => json::field(p, k) is Some && json::field(p, k)->0 != JsonTree::Null,
        None => false,
    }
}

/// A profile without samples.
pub open spec fn empty_profile() -> JsonTree {
    json::obj2("timeframe"@, JsonTree::Null, "culprits"@, JsonTree::Array(Seq::empty()))
}

/// What every outcome tells.
pub open spec fn base_answer(
    ok: bool,
    stdout: Seq<char>,
    stderr: Seq<char>,
    exit_code: int,
    duration_ms: nat,
) -> JsonTree {
    json::with_field(
        json::obj5(
            "ok"@,
            JsonTree::Bool(ok),
            "stdout"@,
            JsonTree::Str(stdout),
            "stderr"@,
            JsonTree::Str(stderr),
            "exit_code"@,
            json::int_tree(exit_code),
            "timed_out"@,
            JsonTree::Bool(false),
        ),
        "duration_ms"@,
        json::uint_tree(duration_ms),
    )
}

/// What a guest gets of code that ended, given what its result reads as.
pub open spec fn exec_answer(
    mode: ExecMode,
    skipped: Option<JsonTree>,
    stdout: Seq<char>,
    stderr: Seq<char>,
    exit_code: int,
    duration_ms: nat,
    parsed: Option<JsonTree>,
) -> JsonTree {
    match mode {
        ExecMode::Profile => {
            let ok = exit_code == 0 && parsed is Some && !names_error(parsed, "user_error"@);
            let a = base_answer(ok, stdout, stderr, exit_code, duration_ms);
            let a = json::with_field(a, "result"@, field_or(parsed, "result"@, JsonTree::Null));
            let a = json::with_field(a, "profile"@, field_or(parsed, "profile"@, empty_profile()));
            let a = json::with_field(
                a,
                "profile_error"@,
                field_or(
                    parsed,
                    "profile_error"@,
                    JsonTree::Str("profile sentinel not found in stdout"@),
                ),
            );
            let a = json::with_field(a, "mem"@, field_or(parsed, "mem"@, JsonTree::Null));
            let a = json::with_field(
                a,
                "wall_vs_cpu"@,
                field_or(parsed, "wall_vs_cpu"@, JsonTree::Null),
            );
            if names_error(parsed, "user_error"@) {
                json::with_field(a, "user_error"@, field_or(parsed, "user_error"@, JsonTree::Null))
            } else {
                a
            }
        },
        ExecMode::Mem => {
            let ok = exit_code == 0 && parsed is Some && !names_error(parsed, "error"@);
            let a = base_answer(ok, stdout, stderr, exit_code, duration_ms);
            let a = json::with_field(a, "result"@, field_or(parsed, "result"@, JsonTree::Null));
            let a = json::with_field(a, "mem"@, field_or(parsed, "mem"@, JsonTree::Null));
            let a = json::with_field(a, "wall_ms"@, field_or(parsed, "wall_ms"@, JsonTree::Null));
            if names_error(parsed, "error"@) {
                json::with_field(a, "error"@, field_or(parsed, "error"@, JsonTree::Null))
            } else {
                a
            }
        },
        ExecMode::Default => {
            let a = base_answer(exit_code == 0, stdout, stderr, exit_code, duration_ms);
            let a = match parsed {
                Some(p) => json::with_field(a, "result"@, p),
                None => a,
            };
            match skipped {
                Some(s) => json::with_field(a, "profile_skipped"@, s),
                None => a,
            }
        },
    }
}

pub(crate) fn get_or(parsed: &Option<Json>, k: &str, default: Json) -> (r: Json)
    ensures
        json::tree(r) == field_or(imports::opt_tree(*parsed), k@, json::tree(default)),
{
    match parsed {
        Some(p) => match p.get(k) {
            Some(f) => f.copy(),
            None => default,
        },
        None => default,
    }
}

fn has_error(parsed: &Option<Json>, k: &str) -> (r: bool)
    ensures
        r == names_error(imports::opt_tree(*parsed), k@),
{
    match parsed {
        Some(p) => match p.get(k) {
            Some(f) => !f.is_null(),
            None => false,
        },
        None => false,
    }
}

fn base_reply(ok: bool, stdout: &str, stderr: &str, exit_code: i32, duration_ms: u64) -> (r: Json)
    ensures
        json::tree(r) == base_answer(ok, stdout@, stderr@, exit_code as int, duration_ms as nat),
{
    json::object5(
        "ok",
        json::boolean(ok),
        "stdout",
        json::str(stdout),
        "stderr",
        json::str(stderr),
        "exit_code",
        json::signed(exit_code as i64),
        "timed_out",
        json::boolean(false),
    ).with("duration_ms", json::uint(duration_ms))
}

pub(crate) fn no_profile() -> (r: Json)
    ensures
        json::tree(r) == empty_profile(),
{
    let none: Vec<Json> = Vec::new();
    assert(json::trees(none@) =~= Seq::<JsonTree>::empty());
    json::object2("timeframe", Json::Null, "culprits", Json::Array(none))
}

/// What a guest gets of code that ended, from what its result holds.
pub fn exec_reply_with(
    mode: ExecMode,
    skipped: Option<Json>,
    stdout: &str,
    stderr: &str,
    exit_code: i32,
    duration_ms: u64,
    parsed: Option<Json>,
) -> (r: Json)
    ensures
        json::tree(r) == exec_answer(
            mode,
            imports::opt_tree(skipped),
            stdout@,
            stderr@,
            exit_code as int,
            duration_ms as nat,
            imports::opt_tree(parsed),
        ),
{
    match mode {
        ExecMode::Profile => {
            let failed = has_error(&parsed, "user_error");
            let ok = exit_code == 0 && parsed.is_some() && !failed;
            let a = base_reply(ok, stdout, stderr, exit_code, duration_ms);
            let a = a.with("result", get_or(&parsed, "result", Json::Null));
            let a = a.with("profile", get_or(&parsed, "profile", no_profile()));
            let a = a.with(
                "profile_error",
                get_or(&parsed, "profile_error", json::str("profile sentinel not found in stdout")),
            );
            let a = a.with("mem", get_or(&parsed, "mem", Json::Null));
            let a = a.with("wall_vs_cpu", get_or(&parsed, "wall_vs_cpu", Json::Null));
            if failed {
                a.with("user_error", get_or(&parsed, "user_error", Json::Null))
            } else {
                a
            }
        },
        ExecMode::Mem => {
            let failed = has_error(&parsed, "error");
            let ok = exit_code == 0 && parsed.is_some() && !failed;
            let a = base_reply(ok, stdout, stderr, exit_code, duration_ms);
            let a = a.with("result", get_or(&parsed, "result", Json::Null));
            let a = a.with("mem", get_or(&parsed, "mem", Json::Null));
            let a = a.with("wall_ms", get_or(&parsed, "wall_ms", Json::Null));
            if failed {
                a.with("error", get_or(&parsed, "error", Json::Null))
            } else {
                a
            }
        },
        ExecMode::Default => {
            let a = base_reply(exit_code == 0, stdout, stderr, exit_code, duration_ms);
            let a = match parsed {
                Some(p) => a.with("result", p),
                None => a,
            };
            match skipped {
                Some(s) => a.with("profile_skipped", s),
                None => a,
            }
        },
    }
}

/// What a text reads as, if it is there and reads as anything.
pub open spec fn read_of(tail: Option<Seq<char>>) -> Option<JsonTree> {
    match tail {
        Some(t) => match json::parsed_json(t) {
            Ok(j) => Some(j),
            Err(_) => None,
        },
        None => None,
    }
}

/// What a guest gets of code that ended.
pub fn exec_reply(
    mode: ExecMode,
    is_js: bool,
    skipped: Option<Json>,
    stdout: &str,
    stderr: &str,
    exit_code: i32,
    duration_ms: u64,
) -> (r: Json)
    ensures
        json::tree(r) == exec_answer(
            mode,
            imports::opt_tree(skipped),
            split_output(mode, is_js, stdout@).0,
            stderr@,
            exit_code as int,
            duration_ms as nat,
            read_of(split_output(mode, is_js, stdout@).1),
        ),
{
    let (clean, tail) = split_stdout(mode, is_js, stdout);
    let parsed = match tail {
        Some(t) => match json::parse(t.as_str()) {
            Ok(j) => Some(j),
            Err(_) => None,
        },
        None => None,
    };
    exec_reply_with(mode, skipped, clean.as_str(), stderr, exit_code, duration_ms, parsed)
}

/// Code that failed, or that was to be measured and left no result, is never
/// told to be fine.
pub proof fn law_failed_code_is_not_ok(
    mode: ExecMode,
    skipped: Option<JsonTree>,
    stdout: Seq<char>,
    stderr: Seq<char>,
    exit_code: int,
    duration_ms: nat,
    parsed: Option<JsonTree>,
)
    requires
        exit_code != 0 || (mode != ExecMode::Default && parsed is None),
    ensures
        json::field_bool(
            exec_answer(mode, skipped, stdout, stderr, exit_code, duration_ms, parsed),
            "ok"@,
        ) == Some(false),
{
    reveal_strlit("ok");
    reveal_strlit("stdout");
    reveal_strlit("stderr");
    reveal_strlit("exit_code");
    reveal_strlit("timed_out");
    reveal_strlit("duration_ms");
    reveal_strlit("result");
    reveal_strlit("profile");
    reveal_strlit("profile_error");
    reveal_strlit("profile_skipped");
    reveal_strlit("mem");
    reveal_strlit("wall_ms");
    reveal_strlit("wall_vs_cpu");
    reveal_strlit("user_error");
    reveal_strlit("error");
    assert("ok"@.len() == 2);
}

/// The program that runs JavaScript: the first that is found.
pub fn resolve_node_cmd(node: Option<String>, bun: Option<String>) -> (r: String)
    ensures
        r@ == imports::or_default(
            imports::first_of(text::opt_string_view(node), text::opt_string_view(bun)),
            "node"@,
        ),
{
    match node {
        Some(p) => p,
        None => match bun {
            Some(p) => p,
            None => "node".to_owned(),
        },
    }
}

/// Where Git puts a shell on Windows.
pub const GIT_BASH: &'static str = "C:\\Program Files\\Git\\bin\\bash.exe";

/// Where Git puts another shell on Windows.
pub const GIT_BASH_USR: &'static str = "C:\\Program Files\\Git\\usr\\bin\\bash.exe";

/// The shell: that of Git on Windows, where it is there, else the first that
/// is found.
pub fn resolve_bash_cmd(windows: bool, git_there: bool, git_usr_there: bool, found: Option<String>) -> (r:
    String)
    ensures
        r@ == (if windows && git_there {
            GIT_BASH@
        } else if windows && git_usr_there {
            GIT_BASH_USR@
        } else {
            imports::or_default(text::opt_string_view(found), "bash"@)
        }),
{
    if windows && git_there {
        GIT_BASH.to_owned()
    } else if windows && git_usr_there {
        GIT_BASH_USR.to_owned()
    } else {
        match found {
            Some(p) => p,
            None => "bash".to_owned(),
        }
    }
}

proof fn lemma_rcut(before: Seq<char>, mark: Seq<char>, after: Seq<char>)
    requires
        forall|j: int|
            j > before.len() ==> !#[trigger] text::occurs_at(before + mark + after, mark, j),
    ensures
        text::rcut_text(before + mark + after, mark) == Some((before, after)),
{
    let s = before + mark + after;
    let i = before.len() as int;
    assert(s.subrange(i, i + mark.len()) =~= mark);
    assert(text::occurs_at(s, mark, i));
    assert(text::last_at(s, mark, i));
    let k = choose|k: int| text::last_at(s, mark, k);
    assert(text::last_at(s, mark, k));
    assert(k == i) by {
        if k < i {
            assert(!text::occurs_at(s, mark, i));
        }
        if k > i {
            assert(!text::occurs_at(s, mark, k));
        }
    }
    assert(s.take(i) =~= before);
    assert(s.skip(i + mark.len()) =~= after);
}

proof fn lemma_cut(before: Seq<char>, mark: Seq<char>, after: Seq<char>)
    requires
        forall|j: int|
            j < before.len() ==> !#[trigger] text::occurs_at(before + mark + after, mark, j),
    ensures
        text::cut_text(before + mark + after, mark) == Some((before, after)),
{
    let s = before + mark + after;
    let i = before.len() as int;
    assert(s.subrange(i, i + mark.len()) =~= mark);
    assert(text::occurs_at(s, mark, i));
    assert(text::first_at(s, mark, i));
    let k = choose|k: int| text::first_at(s, mark, k);
    assert(text::first_at(s, mark, k));
    assert(k == i) by {
        if k > i {
            assert(!text::occurs_at(s, mark, i));
        }
        if k < i {
            assert(!text::occurs_at(s, mark, k));
        }
    }
    assert(s.take(i) =~= before);
    assert(s.skip(i + mark.len()) =~= after);
}

/// What a guest gets of code that ended, from its output.
pub open spec fn told(
    mode: ExecMode,
    is_js: bool,
    skipped: Option<JsonTree>,
    stdout: Seq<char>,
    stderr: Seq<char>,
    exit_code: int,
    duration_ms: nat,
) -> JsonTree {
    exec_answer(
        mode,
        skipped,
        split_output(mode, is_js, stdout).0,
        stderr,
        exit_code,
        duration_ms,
        read_of(split_output(mode, is_js, stdout).1),
    )
}

/// The result of JavaScript is what stands behind the last result mark in its
/// output, up to the line end. The rest of the output is what the code printed,
/// without the line of the result; a line end at its end is dropped.
pub proof fn law_result_is_told(
    skipped: Option<JsonTree>,
    printed: Seq<char>,
    result: Seq<char>,
    more: Seq<char>,
    stderr: Seq<char>,
    exit_code: int,
    duration_ms: nat,
)
    requires
        !text::has_char(result, '\n'),
        forall|j: int|
            j > printed.len() ==> !#[trigger] text::occurs_at(
                printed + "__GM_RESULT__"@ + (result + seq!['\n'] + more),
                "__GM_RESULT__"@,
                j,
            ),
    ensures
        ({
            let out = printed + "__GM_RESULT__"@ + (result + seq!['\n'] + more);
            let a = told(ExecMode::Default, true, skipped, out, stderr, exit_code, duration_ms);
            let kept = printed + more;
            &&& forall|v: JsonTree| #[trigger]
                json::parsed_json(result) == json::read_ok(v) ==> json::field(a, "result"@) == Some(
                    v,
                )
            &&& json::parsed_json(result) is Err ==> json::field(a, "result"@) is None
            &&& kept.len() > 0 && kept.last() == '\n' ==> json::field(a, "stdout"@) == Some(
                JsonTree::Str(kept.drop_last()),
            )
            &&& kept.len() == 0 || kept.last() != '\n' ==> json::field(a, "stdout"@) == Some(
                JsonTree::Str(kept),
            )
        }),
{
    let tail = result + seq!['\n'] + more;
    lemma_rcut(printed, "__GM_RESULT__"@, tail);
    assert(RESULT_SENTINEL@ == "__GM_RESULT__"@);
    text::lemma_line_cut(result, more);
    lemma_answer_fields(skipped);
    assert(read_of(Some(result)) == (match json::parsed_json(result) {
        Ok(j) => Some(j),
        Err(_) => None,
    }));
}

/// Output without a result mark is told as it is, and without a result; so is
/// the output of any language but JavaScript.
pub proof fn law_output_is_told(
    is_js: bool,
    skipped: Option<JsonTree>,
    stdout: Seq<char>,
    stderr: Seq<char>,
    exit_code: int,
    duration_ms: nat,
)
    requires
        !is_js || !text::has_text(stdout, "__GM_RESULT__"@),
    ensures
        ({
            let a = told(ExecMode::Default, is_js, skipped, stdout, stderr, exit_code, duration_ms);
            &&& json::field(a, "stdout"@) == Some(JsonTree::Str(stdout))
            &&& json::field(a, "result"@) is None
        }),
{
    assert(RESULT_SENTINEL@ == "__GM_RESULT__"@);
    lemma_answer_fields(skipped);
}

/// Whatever the mode, a guest is told what the code wrote to its errors, how it
/// ended and how long it took; and in the default mode it is fine exactly when
/// it ended with zero.
pub proof fn law_end_is_told(
    mode: ExecMode,
    is_js: bool,
    skipped: Option<JsonTree>,
    stdout: Seq<char>,
    stderr: Seq<char>,
    exit_code: int,
    duration_ms: nat,
)
    ensures
        ({
            let a = told(mode, is_js, skipped, stdout, stderr, exit_code, duration_ms);
            &&& json::field(a, "stderr"@) == Some(JsonTree::Str(stderr))
            &&& json::field(a, "exit_code"@) == Some(JsonTree::Number(text::signed_decimal(exit_code)))
            &&& json::field(a, "duration_ms"@) == Some(JsonTree::Number(text::decimal(duration_ms)))
            &&& json::field(a, "timed_out"@) == Some(JsonTree::Bool(false))
            &&& mode == ExecMode::Default ==> json::field(a, "ok"@) == Some(
                JsonTree::Bool(exit_code == 0),
            )
            &&& mode == ExecMode::Default && skipped is Some ==> json::field(
                a,
                "profile_skipped"@,
            ) == skipped
        }),
{
    lemma_answer_fields(skipped);
}

/// What marks the measurements of code in its output.
pub open spec fn measure_mark(mode: ExecMode) -> Seq<char> {
    if mode == ExecMode::Mem {
        "__GM_META__"@
    } else {
        "__GM_PROFILE__"@
    }
}

/// Code that is measured tells its result and what was measured behind a mark
/// of the mode. A guest gets each of these fields as it was told, and `null`
/// for one that was not; it is fine exactly when the code ended with zero and
/// tells no error.
pub proof fn law_measurements_are_told(
    mode: ExecMode,
    skipped: Option<JsonTree>,
    printed: Seq<char>,
    tail: Seq<char>,
    stderr: Seq<char>,
    exit_code: int,
    duration_ms: nat,
    v: JsonTree,
)
    requires
        mode != ExecMode::Default,
        json::parsed_json(tail) == json::read_ok(v),
        forall|j: int|
            j < printed.len() ==> !#[trigger] text::occurs_at(
                printed + measure_mark(mode) + tail,
                measure_mark(mode),
                j,
            ),
    ensures
        ({
            let mark = measure_mark(mode);
            let a = told(mode, true, skipped, printed + mark + tail, stderr, exit_code, duration_ms);
            let wrong = if mode == ExecMode::Mem {
                "error"@
            } else {
                "user_error"@
            };
            &&& json::field(a, "stdout"@) == Some(JsonTree::Str(printed))
            &&& json::field(a, "result"@) == Some(
                match json::field(v, "result"@) {
                    Some(f) => f,
                    None => JsonTree::Null,
                },
            )
            &&& json::field(a, "mem"@) == Some(
                match json::field(v, "mem"@) {
                    Some(f) => f,
                    None => JsonTree::Null,
                },
            )
            &&& mode == ExecMode::Profile && json::field(v, "profile"@) is Some ==> json::field(
                a,
                "profile"@,
            ) == json::field(v, "profile"@)
            &&& json::field(a, "ok"@) == Some(
                JsonTree::Bool(
                    exit_code == 0 && (json::field(v, wrong) is None || json::field(v, wrong)
                        == Some(JsonTree::Null)),
                ),
            )
            &&& json::field(v, wrong) is Some && json::field(v, wrong) != Some(JsonTree::Null)
                ==> json::field(a, wrong) == json::field(v, wrong)
        }),
{
    assert(META_SENTINEL@ == "__GM_META__"@);
    assert(PROFILE_SENTINEL@ == "__GM_PROFILE__"@);
    lemma_cut(printed, measure_mark(mode), tail);
    lemma_answer_fields(skipped);
    assert(read_of(Some(tail)) == Some(v));
}

/// The names of the fields of an answer differ.
proof fn lemma_answer_fields(skipped: Option<JsonTree>)
    ensures
        "ok"@.len() == 2,
        "mem"@.len() == 3,
        "error"@.len() == 5,
        "stdout"@.len() == 6 && "stdout"@[3] == 'o',
        "stderr"@.len() == 6 && "stderr"@[3] == 'e',
        "result"@.len() == 6 && "result"@[0] == 'r',
        "stdout"@[0] == 's' && "stderr"@[0] == 's',
        "profile"@.len() == 7 && "profile"@[0] == 'p',
        "wall_ms"@.len() == 7 && "wall_ms"@[0] == 'w',
        "exit_code"@.len() == 9 && "exit_code"@[0] == 'e',
        "timed_out"@.len() == 9 && "timed_out"@[0] == 't',
        "user_error"@.len() == 10,
        "duration_ms"@.len() == 11 && "duration_ms"@[0] == 'd',
        "wall_vs_cpu"@.len() == 11 && "wall_vs_cpu"@[0] == 'w',
        "profile_error"@.len() == 13,
        "profile_skipped"@.len() == 15,
{
    reveal_strlit("ok");
    reveal_strlit("stdout");
    reveal_strlit("stderr");
    reveal_strlit("exit_code");
    reveal_strlit("timed_out");
    reveal_strlit("duration_ms");
    reveal_strlit("result");
    reveal_strlit("profile");
    reveal_strlit("profile_error");
    reveal_strlit("profile_skipped");
    reveal_strlit("mem");
    reveal_strlit("wall_ms");
    reveal_strlit("wall_vs_cpu");
    reveal_strlit("user_error");
    reveal_strlit("error");
}

/// The code of a guest runs in the language that it names, and in no other: on
/// node where it names none. It is handed over whole, and all programs but node
/// get it as it is.
pub proof fn law_code_runs_in_its_language(code: Seq<char>, mode: ExecMode, opts: JsonTree, lang: Seq<char>)
    requires
        json::field(opts, "lang"@) == Some(JsonTree::Str(lang)) || (json::field_str(
            opts,
            "lang"@,
        ) is None && lang == "nodejs"@),
    ensures
        lang_of(opts) == lang,
        lang == "nodejs"@ || lang == "js"@ ==> program_for(lang) == Some(Program::Node),
        lang == "python"@ || lang == "py"@ ==> program_for(lang) == Some(Program::Python),
        lang == "bash"@ || lang == "sh"@ || lang == "shell"@ ==> program_for(lang) == Some(
            Program::Bash,
        ),
        lang == "powershell"@ || lang == "ps1"@ ==> program_for(lang) == Some(Program::PowerShell),
        lang == "deno"@ ==> program_for(lang) == Some(Program::Deno),
        program_for(lang) is Some ==> lang == "nodejs"@ || lang == "js"@ || lang == "python"@
            || lang == "py"@ || lang == "bash"@ || lang == "sh"@ || lang == "shell"@ || lang
            == "powershell"@ || lang == "ps1"@ || lang == "deno"@,
        program_args(Program::Python, code, mode, opts) == seq!["-c"@, code],
        program_args(Program::Bash, code, mode, opts) == seq!["-c"@, code],
        program_args(Program::PowerShell, code, mode, opts) == seq![
            "-NoProfile"@,
            "-NonInteractive"@,
            "-Command"@,
            code,
        ],
        program_args(Program::Deno, code, mode, opts) == seq!["eval"@, code],
        program_args(Program::Node, code, mode, opts)[0] == "-e"@,
        text::has_text(program_args(Program::Node, code, mode, opts)[1], code),
{
    reveal_strlit("nodejs");
    reveal_strlit("js");
    reveal_strlit("python");
    reveal_strlit("py");
    reveal_strlit("bash");
    reveal_strlit("sh");
    reveal_strlit("shell");
    reveal_strlit("powershell");
    reveal_strlit("ps1");
    reveal_strlit("deno");
    assert("nodejs"@.len() == 6 && "js"@.len() == 2 && "python"@.len() == 6 && "py"@.len() == 2);
    assert("bash"@.len() == 4 && "sh"@.len() == 2 && "shell"@.len() == 5 && "deno"@.len() == 4);
    assert("powershell"@.len() == 10 && "ps1"@.len() == 3);
    assert("nodejs"@[0] == 'n' && "python"@[0] == 'p' && "bash"@[0] == 'b' && "deno"@[0] == 'd');
    assert("js"@[0] == 'j' && "py"@[0] == 'p' && "sh"@[0] == 's');
    let script = node_script(code, mode, opts);
    match mode {
        ExecMode::Default => {
            lemma_holds(DEFAULT_HEAD@, code, DEFAULT_TAIL@);
        },
        ExecMode::Mem => {
            lemma_holds(MEM_HEAD@, code, MEM_TAIL@);
        },
        ExecMode::Profile => {
            let head = PROFILE_HEAD@ + text::signed_decimal(
                positive_or(opts, "sampleIntervalUs"@, 100),
            ) + PROFILE_START@;
            let n = text::signed_decimal(positive_or(opts, "profileTopN"@, 20));
            lemma_holds(head, code, PROFILE_STOP@ + n + PROFILE_TAIL@);
            assert(script =~= head + code + (PROFILE_STOP@ + n + PROFILE_TAIL@));
        },
    }
}

proof fn lemma_holds(before: Seq<char>, s: Seq<char>, after: Seq<char>)
    ensures
        text::has_text(before + s + after, s),
{
    let i = before.len() as int;
    assert((before + s + after).subrange(i, i + s.len()) =~= s);
    assert(text::occurs_at(before + s + after, s, i));
}

/// Code is refused just where its time is missing, too short, or its language
/// is unknown; an answer to a refusal is never fine.
pub proof fn law_code_is_refused_for_a_reason(opts: JsonTree)
    ensures
        exec_refusal(opts) is None <==> (json::field_i64(opts, "timeoutMs"@) is Some
            && json::field_i64(opts, "timeoutMs"@)->0 >= 100 && program_for(lang_of(opts)) is Some),
        exec_refusal(opts) matches Some(a) ==> json::field(a, "ok"@) == Some(JsonTree::Bool(false)),
{
    reveal_strlit("ok");
    reveal_strlit("error");
    reveal_strlit("required");
    reveal_strlit("min");
    reveal_strlit("received");
    assert("ok"@.len() == 2);
}

/// JavaScript is measured where that is asked for, its time before its memory;
/// code of another language never is, and is told so where it asks.
pub proof fn law_only_javascript_is_measured(opts: JsonTree, lang: Seq<char>)
    requires
        json::field(opts, "lang"@) == Some(JsonTree::Str(lang)),
    ensures
        ({
            let js = lang == "js"@ || lang == "nodejs"@;
            let profile = json::field(opts, "profile"@) == Some(JsonTree::Bool(true));
            let mem = json::field(opts, "mem"@) == Some(JsonTree::Bool(true));
            &&& js && profile ==> mode_of(opts) == ExecMode::Profile
            &&& js && !profile && mem ==> mode_of(opts) == ExecMode::Mem
            &&& js && !profile && !mem ==> mode_of(opts) == ExecMode::Default
            &&& !js ==> mode_of(opts) == ExecMode::Default
            &&& skipped_profile(opts) is Some <==> profile && !js
            &&& skipped_profile(opts) matches Some(a) ==> json::field(a, "lang"@) == Some(
                JsonTree::Str(lang),
            ) && json::field(a, "reason"@) == Some(
                JsonTree::Str(
                    "profile requested but lang="@ + lang
                        + " is not js/nodejs; CPU profiling only supported on the node surface"@,
                ),
            )
        }),
{
    reveal_strlit("reason");
    reveal_strlit("lang");
    assert("reason"@.len() == 6 && "lang"@.len() == 4);
}

/// A profile is taken every so many microseconds and tells so many of the
/// slowest: a hundred and twenty where nothing else is asked for.
pub proof fn law_profile_is_taken_as_asked(code: Seq<char>, opts: JsonTree, n: nat)
    requires
        0 < n <= i64::MAX,
    ensures
        json::field(opts, "sampleIntervalUs"@) is None && json::field(opts, "profileTopN"@) is None
            ==> node_script(code, ExecMode::Profile, opts) == PROFILE_HEAD@ + text::decimal(100)
            + PROFILE_START@ + code + PROFILE_STOP@ + text::decimal(20) + PROFILE_TAIL@,
        json::field_i64(opts, "sampleIntervalUs"@) == Some(n as int) && json::field(
            opts,
            "profileTopN"@,
        ) is None ==> node_script(code, ExecMode::Profile, opts) == PROFILE_HEAD@ + text::decimal(n)
            + PROFILE_START@ + code + PROFILE_STOP@ + text::decimal(20) + PROFILE_TAIL@,
        json::field(opts, "sampleIntervalUs"@) is None && json::field_i64(opts, "profileTopN"@) == Some(
            n as int,
        ) ==> node_script(code, ExecMode::Profile, opts) == PROFILE_HEAD@ + text::decimal(100)
            + PROFILE_START@ + code + PROFILE_STOP@ + text::decimal(n) + PROFILE_TAIL@,
        node_script(code, ExecMode::Mem, opts) == MEM_HEAD@ + code + MEM_TAIL@,
        node_script(code, ExecMode::Default, opts) == DEFAULT_HEAD@ + code + DEFAULT_TAIL@,
{
}

/// A refusal says what is wrong: no time, too short a time with the least one,
/// or a language that is not known.
pub proof fn law_refused_code_is_told_why(opts: JsonTree, ms: int)
    ensures
        json::field_i64(opts, "timeoutMs"@) is None ==> exec_refusal(opts) is Some && json::field(
            exec_refusal(opts)->0,
            "error"@,
        ) == Some(JsonTree::Str("missing timeoutMs"@)),
        json::field_i64(opts, "timeoutMs"@) == Some(ms) && ms < 100 ==> exec_refusal(opts) is Some
            && json::field(exec_refusal(opts)->0, "error"@) == Some(
            JsonTree::Str("timeoutMs below floor"@),
        ) && json::field(exec_refusal(opts)->0, "min"@) == Some(JsonTree::Number(text::decimal(100)))
            && json::field(exec_refusal(opts)->0, "received"@) == Some(
            JsonTree::Number(text::signed_decimal(ms)),
        ),
        json::field_i64(opts, "timeoutMs"@) == Some(ms) && ms >= 100 && program_for(lang_of(opts)) is None
            ==> exec_refusal(opts) is Some && json::field(exec_refusal(opts)->0, "error"@) == Some(
            JsonTree::Str("unsupported lang: "@ + lang_of(opts)),
        ),
{
    reveal_strlit("ok");
    reveal_strlit("error");
    reveal_strlit("required");
    reveal_strlit("min");
    reveal_strlit("received");
    assert("ok"@.len() == 2 && "error"@.len() == 5 && "required"@.len() == 8 && "min"@.len() == 3
        && "received"@.len() == 8);
    assert("required"@[2] == 'q' && "received"@[2] == 'c');
}

/// A number of the options counts where it is above zero; a profile that was
/// not taken has no samples.
pub proof fn law_options_are_above_zero(opts: JsonTree, k: Seq<char>, n: int, default: int)
    ensures
        json::field_i64(opts, k) == Some(n) && n > 0 ==> positive_or(opts, k, default) == n,
        json::field_i64(opts, k) == Some(n) && n <= 0 ==> positive_or(opts, k, default) == default,
        json::field_i64(opts, k) is None ==> positive_or(opts, k, default) == default,
        json::field(empty_profile(), "timeframe"@) == Some(JsonTree::Null),
        json::field(empty_profile(), "culprits"@) == Some(JsonTree::Array(Seq::<JsonTree>::empty())),
{
    reveal_strlit("timeframe");
    reveal_strlit("culprits");
    assert("timeframe"@.len() == 9 && "culprits"@.len() == 8);
}

} // verus!
