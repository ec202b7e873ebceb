//! Planning the secret scans of a downloaded crate: where each scanner's
//! report goes, with which arguments the scanner runs, and what a failed
//! run reports.

use vstd::prelude::*;

use crate::text::{chars_of, push_str, views};

verus! {

/// Where the scanner configuration file is read from.
pub const TOOLS_CONFIG_PATH: &'static str = "/var/tools/tools.json";

/// The directory under which the crates' sources are unpacked, one
/// directory per namespace.
pub const CRATES_ROOT: &'static str = "/var/target/new_crates_file";

/// The secret scanner that each job runs.
pub const SCANNER_PATH: &'static str = "/var/tools/sensleak/scan";

/// The rule file handed to the scanner.
pub const GITLEAKS_CONFIG_PATH: &'static str = "/var/tools/sensleak/gitleaks.toml";

/// One scanner of the configuration file.
pub struct ToolConfig {
    pub name: String,
    pub binary_path: String,
    /// How to run it; one scan job is planned per entry.
    pub run: Vec<String>,
}

/// The configuration file: the scanners to run.
pub struct Config {
    pub tools: Vec<ToolConfig>,
}

/// `base` joined with `part` as `Path::join` joins them on Unix: an absolute
/// `part` replaces `base`; otherwise a `'/'` is put between them unless
/// `base` is empty or already ends with one.
pub open spec fn join_path_spec(base: Seq<char>, part: Seq<char>) -> Seq<char> {
    if part.len() > 0 && part[0] == '/' {
        part
    } else if base.len() > 0 && base.last() != '/' {
        base + seq!['/'] + part
    } else {
        base + part
    }
}

/// `base` joined with `part` (see `join_path_spec`).
pub fn join_path(base: &str, part: &str) -> (r: String)
    ensures
        r@ == join_path_spec(base@, part@),
{
    let p = chars_of(part);
    if p.len() > 0 && p[0] == '/' {
        return String::from_str(part);
    }
    let b = chars_of(base);
    if b.len() > 0 && b[b.len() - 1] != '/' {
        let r = String::from_str(base);
        let r = r.concat("/");
        proof {
            reveal_strlit("/");
        }
        assert("/"@ == seq!['/']);
        r.concat(part)
    } else {
        String::from_str(base).concat(part)
    }
}

/// The directory of `tool`'s reports for `namespace`.
pub open spec fn report_dir_spec(output_path: Seq<char>, tool: Seq<char>, namespace: Seq<char>) -> Seq<
    char,
> {
    join_path_spec(join_path_spec(output_path, tool), namespace)
}

/// The report file of `tool` on crate `crate_name` of `namespace`.
pub open spec fn report_file_spec(
    output_path: Seq<char>,
    tool: Seq<char>,
    namespace: Seq<char>,
    crate_name: Seq<char>,
) -> Seq<char> {
    join_path_spec(report_dir_spec(output_path, tool, namespace), crate_name + ".txt"@)
}

/// The scanner's arguments: the repository to scan, the rule file, verbose
/// and pretty output, and the report file.
pub open spec fn scan_args_spec(repo: Seq<char>, report: Seq<char>) -> Seq<Seq<char>> {
    seq![
        "--repo"@,
        repo,
        "--config"@,
        GITLEAKS_CONFIG_PATH@,
        "-v"@,
        "--pretty"@,
        "--report"@,
        report,
    ]
}

/// One scan to run: the tool's name, the directory that must exist, the
/// report file and the arguments of `SCANNER_PATH`.
pub struct ScanJob {
    pub tool_name: String,
    pub output_dir: String,
    pub output_file: String,
    pub args: Vec<String>,
}

/// A scan job as sequences.
pub open spec fn job_view(j: ScanJob) -> (Seq<char>, Seq<char>, Seq<char>, Seq<Seq<char>>) {
    (j.tool_name@, j.output_dir@, j.output_file@, views(j.args@))
}

/// The job of `tool` on crate `crate_name` of `namespace`.
pub open spec fn job_spec(
    output_path: Seq<char>,
    tool: Seq<char>,
    namespace: Seq<char>,
    crate_name: Seq<char>,
) -> (Seq<char>, Seq<char>, Seq<char>, Seq<Seq<char>>) {
    (
        tool,
        report_dir_spec(output_path, tool, namespace),
        report_file_spec(output_path, tool, namespace, crate_name),
        scan_args_spec(
            join_path_spec(CRATES_ROOT@, namespace),
            report_file_spec(output_path, tool, namespace, crate_name),
        ),
    )
}

/// The jobs of the scanners `tools`, in order: each scanner once per entry
/// of its `run` list.
pub open spec fn scan_plan_spec(
    tools: Seq<ToolConfig>,
    output_path: Seq<char>,
    namespace: Seq<char>,
    crate_name: Seq<char>,
) -> Seq<(Seq<char>, Seq<char>, Seq<char>, Seq<Seq<char>>)>
    decreases tools.len(),
{
    if tools.len() == 0 {
        seq![]
    } else {
        Seq::new(
            tools[0].run@.len(),
            |i: int| job_spec(output_path, tools[0].name@, namespace, crate_name),
        ) + scan_plan_spec(tools.drop_first(), output_path, namespace, crate_name)
    }
}

/// The job of scanner `tool` on the crate.
pub fn scan_job(output_path: &str, tool: &str, namespace: &str, crate_name: &str) -> (r: ScanJob)
    ensures
        job_view(r) == job_spec(output_path@, tool@, namespace@, crate_name@),
{
    let dir = join_path(output_path, tool);
    let dir = join_path(dir.as_str(), namespace);
    let file_name = String::from_str(crate_name).concat(".txt");
    let file = join_path(dir.as_str(), file_name.as_str());
    let repo = join_path(CRATES_ROOT, namespace);
    let mut args: Vec<String> = Vec::new();
    push_str(&mut args, "--repo");
    push_str(&mut args, repo.as_str());
    push_str(&mut args, "--config");
    push_str(&mut args, GITLEAKS_CONFIG_PATH);
    push_str(&mut args, "-v");
    push_str(&mut args, "--pretty");
    push_str(&mut args, "--report");
    push_str(&mut args, file.as_str());
    let r = ScanJob { tool_name: String::from_str(tool), output_dir: dir, output_file: file, args };
    assert(views(r.args@) =~= scan_args_spec(join_path_spec(CRATES_ROOT@, namespace@), file@));
    r
}

/// How many scan jobs the scanners `tools` give: one per entry of each
/// scanner's `run` list.
pub open spec fn total_runs(tools: Seq<ToolConfig>) -> nat
    decreases tools.len(),
{
    if tools.len() == 0 {
        0
    } else {
        tools[0].run@.len() + total_runs(tools.drop_first())
    }
}

/// What a planned job must be: the job of one of the scanners `tools`, its
/// report directory `output_path/tool/namespace`, its report file
/// `crate_name.txt` there, and the scanner pointed at the crate's sources
/// under `CRATES_ROOT/namespace`, writing that report.
pub open spec fn is_planned_job(
    j: (Seq<char>, Seq<char>, Seq<char>, Seq<Seq<char>>),
    tools: Seq<ToolConfig>,
    output_path: Seq<char>,
    namespace: Seq<char>,
    crate_name: Seq<char>,
) -> bool {
    &&& exists|t: int| 0 <= t < tools.len() && j.0 == tools[t].name@
    &&& j.1 == join_path_spec(join_path_spec(output_path, j.0), namespace)
    &&& j.2 == join_path_spec(j.1, crate_name + ".txt"@)
    &&& j.3 == seq![
        "--repo"@,
        join_path_spec(CRATES_ROOT@, namespace),
        "--config"@,
        GITLEAKS_CONFIG_PATH@,
        "-v"@,
        "--pretty"@,
        "--report"@,
        j.2,
    ]
}

/// Every planned job scans the namespace's sources with one of the
/// configured scanners and writes that scanner's report for the crate, and
/// there is one job per `run` entry of each scanner.
pub proof fn lemma_scan_plan_jobs(
    tools: Seq<ToolConfig>,
    output_path: Seq<char>,
    namespace: Seq<char>,
    crate_name: Seq<char>,
)
    ensures
        scan_plan_spec(tools, output_path, namespace, crate_name).len() == total_runs(tools),
        forall|i: int|
            0 <= i < scan_plan_spec(tools, output_path, namespace, crate_name).len()
                ==> is_planned_job(
                #[trigger] scan_plan_spec(tools, output_path, namespace, crate_name)[i],
                tools,
                output_path,
                namespace,
                crate_name,
            ),
    decreases tools.len(),
{
    if tools.len() > 0 {
        let rest = tools.drop_first();
        lemma_scan_plan_jobs(rest, output_path, namespace, crate_name);
        let head = Seq::new(
            tools[0].run@.len(),
            |i: int| job_spec(output_path, tools[0].name@, namespace, crate_name),
        );
        let plan = scan_plan_spec(tools, output_path, namespace, crate_name);
        let rest_plan = scan_plan_spec(rest, output_path, namespace, crate_name);
        assert(plan == head + rest_plan);
        assert forall|i: int| 0 <= i < plan.len() implies is_planned_job(
            #[trigger] plan[i],
            tools,
            output_path,
            namespace,
            crate_name,
        ) by {
            if i < head.len() {
                assert(plan[i] == head[i]);
                assert(plan[i].0 == tools[0].name@);
            } else {
                assert(plan[i] == rest_plan[i - head.len()]);
                assert(is_planned_job(rest_plan[i - head.len()], rest, output_path, namespace, crate_name));
                let t = choose|t: int| 0 <= t < rest.len() && rest_plan[i - head.len()].0 == rest[t].name@;
                assert(rest[t] == tools[t + 1]);
            }
        }
    }
}

/// The scan jobs for crate `crate_name` of `namespace`, with reports under
/// `output_path`.
pub fn scan_jobs(config: &Config, output_path: &str, namespace: &str, crate_name: &str) -> (r: Vec<
    ScanJob,
>)
    ensures
        r@.map_values(|j: ScanJob| job_view(j)) == scan_plan_spec(
            config.tools@,
            output_path@,
            namespace@,
            crate_name@,
        ),
        r@.len() == total_runs(config.tools@),
        forall|i: int|
            0 <= i < r@.len() ==> is_planned_job(
                job_view(#[trigger] r@[i]),
                config.tools@,
                output_path@,
                namespace@,
                crate_name@,
            ),
{
    let ghost tools = config.tools@;
    let ghost plan = |t: Seq<ToolConfig>| scan_plan_spec(t, output_path@, namespace@, crate_name@);
    let mut r: Vec<ScanJob> = Vec::new();
    let mut i: usize = 0;
    assert(tools.subrange(0, tools.len() as int) == tools);
    while i < config.tools.len()
        invariant
            tools == config.tools@,
            i <= tools.len(),
            plan == (|t: Seq<ToolConfig>| scan_plan_spec(t, output_path@, namespace@, crate_name@)),
            r@.map_values(|j: ScanJob| job_view(j)) + plan(tools.subrange(i as int, tools.len() as int))
                == plan(tools),
        decreases tools.len() - i,
    {
        let tool = &config.tools[i];
        let ghost before = r@.map_values(|j: ScanJob| job_view(j));
        let ghost here = job_spec(output_path@, tool.name@, namespace@, crate_name@);
        let ghost rest = tools.subrange(i + 1, tools.len() as int);
        assert(tools.subrange(i as int, tools.len() as int).drop_first() == rest);
        assert(tools.subrange(i as int, tools.len() as int)[0] == *tool);
        let mut k: usize = 0;
        while k < tool.run.len()
            invariant
                k <= tool.run@.len(),
                here == job_spec(output_path@, tool.name@, namespace@, crate_name@),
                r@.map_values(|j: ScanJob| job_view(j)) == before + Seq::new(
                    k as nat,
                    |x: int| here,
                ),
            decreases tool.run@.len() - k,
        {
            let job = scan_job(output_path, tool.name.as_str(), namespace, crate_name);
            let ghost prev = r@;
            r.push(job);
            assert(r@ == prev.push(job));
            assert(r@.map_values(|j: ScanJob| job_view(j)) =~= prev.map_values(|j: ScanJob| job_view(j)).push(here));
            assert(r@.map_values(|j: ScanJob| job_view(j)) =~= before + Seq::new(
                (k + 1) as nat,
                |x: int| here,
            ));
            k = k + 1;
        }
        assert(r@.map_values(|j: ScanJob| job_view(j)) + plan(rest) =~= before + plan(
            tools.subrange(i as int, tools.len() as int),
        ));
        i = i + 1;
    }
    assert(tools.subrange(i as int, tools.len() as int) =~= Seq::<ToolConfig>::empty());
    assert(r@.map_values(|j: ScanJob| job_view(j)) =~= plan(tools));
    proof {
        lemma_scan_plan_jobs(tools, output_path@, namespace@, crate_name@);
        assert forall|i: int| 0 <= i < r@.len() implies is_planned_job(
            job_view(#[trigger] r@[i]),
            tools,
            output_path@,
            namespace@,
            crate_name@,
        ) by {
            assert(r@.map_values(|j: ScanJob| job_view(j))[i] == job_view(r@[i]));
        }
    }
    r
}

/// The error text of a scanner run that failed.
pub open spec fn scan_failure_message_spec(tool: Seq<char>, stderr: Seq<char>) -> Seq<char> {
    "Failed to execute run command for "@ + tool + ": "@ + stderr
}

/// `Failed to execute run command for {tool}: {stderr}`.
pub fn scan_failure_message(tool: &str, stderr: &str) -> (r: String)
    ensures
        r@ == scan_failure_message_spec(tool@, stderr@),
{
    String::from_str("Failed to execute run command for ").concat(tool).concat(": ").concat(stderr)
}

} // verus!
