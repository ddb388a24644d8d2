//! Startup configuration: the base configuration with its command-line
//! overrides, and the generation batch, whose entries are processed
//! independently — a failed entry is skipped and reported, never fatal to
//! the batch.

use vstd::prelude::*;
use vstd::string::StringExecFns;
use crate::resolve::SourceError;

verus! {

/// Options given on the command line; each one set overrides the
/// corresponding configured value.
pub struct CliArgs {
    /// The root directory to serve from.
    pub path: Option<String>,
    /// The port to serve from.
    pub port: Option<u16>,
    /// Whether to log request status.
    pub log: Option<bool>,
    /// Whether the serve subcommand was given: serve only, build no
    /// pipelines.
    pub serve_only: bool,
}

/// One generation pipeline: an input URI resolved and written to an output
/// path relative to the output directory.
pub struct PipelineConfig {
    /// The input URI.
    pub input: String,
    /// The output path, relative to the output directory.
    pub output: String,
}

/// Generation configuration: where output goes, and the pipelines to run,
/// in order.
pub struct GenerateConfig {
    /// The final output directory of files.
    pub output_dir: String,
    /// The pipelines to run.
    pub pipelines: Vec<PipelineConfig>,
}

/// Base configuration, as loaded from the configuration file.
pub struct CliConfig {
    /// The root folder to serve from.
    pub root: Option<String>,
    /// The port to serve from.
    pub port: u16,
    /// Enable logging.
    pub log: bool,
    /// Generation options.
    pub generate: Option<GenerateConfig>,
}

impl CliConfig {
    /// Override the configuration with command-line options: every option
    /// present on the command line replaces the configured value, every
    /// absent one leaves it unchanged.
    pub fn override_with_cli(self, cli: &CliArgs) -> (r: CliConfig)
        ensures
            cli.path matches Some(p) ==> (r.root matches Some(q) && q@ == p@),
            cli.path is None ==> r.root == self.root,
            r.port == (if cli.port is Some {
                cli.port->0
            } else {
                self.port
            }),
            r.log == (if cli.log is Some {
                cli.log->0
            } else {
                self.log
            }),
            r.generate == self.generate,
    {
        let mut out = self;
        match &cli.path {
            Some(p) => {
                out.root = Some(p.clone());
            },
            None => {},
        }
        match cli.port {
            Some(p) => {
                out.port = p;
            },
            None => {},
        }
        match cli.log {
            Some(l) => {
                out.log = l;
            },
            None => {},
        }
        out
    }
}

impl Default for CliConfig {
    /// The configuration used when no file and no options are given.
    fn default() -> (r: CliConfig)
        ensures
            r.root is None,
            r.port == 5000,
            !r.log,
            r.generate is None,
    {
        CliConfig { root: None, port: 5000, log: false, generate: None }
    }
}

/// The generation configuration in effect: the serve subcommand disables
/// generation, otherwise the configured one stands.
pub fn effective_generate(serve_only: bool, generate: Option<GenerateConfig>) -> (r: Option<
    GenerateConfig,
>)
    ensures
        serve_only ==> r is None,
        !serve_only ==> r == generate,
{
    if serve_only {
        None
    } else {
        generate
    }
}

/// The output path of one pipeline entry below the output directory.
pub fn entry_output_path(output_dir: &str, entry: &PipelineConfig) -> (r: String)
    ensures
        r@ == output_dir@ + "/"@ + entry.output@,
{
    let mut out = String::from_str(output_dir);
    out.append("/");
    out.append(entry.output.as_str());
    out
}

/// How many entries of a batch resolved successfully.
pub open spec fn count_ok(results: Seq<Result<Vec<u8>, SourceError>>) -> nat
    decreases results.len(),
{
    if results.len() == 0 {
        0nat
    } else {
        (if results[0] is Ok {
            1nat
        } else {
            0nat
        }) + count_ok(results.subrange(1, results.len() as int))
    }
}

/// The writes a generation batch performs: one per entry whose input
/// resolved, at the entry's path below the output directory, in entry
/// order; entries that failed are skipped and contribute nothing.
pub open spec fn plan_spec(
    dir: Seq<char>,
    entries: Seq<PipelineConfig>,
    results: Seq<Result<Vec<u8>, SourceError>>,
) -> Seq<(Seq<char>, Seq<u8>)>
    decreases entries.len(),
{
    if entries.len() == 0 || results.len() == 0 {
        Seq::empty()
    } else {
        let rest = plan_spec(
            dir,
            entries.subrange(1, entries.len() as int),
            results.subrange(1, results.len() as int),
        );
        match results[0] {
            Ok(b) => seq![(dir + "/"@ + entries[0].output@, b@)] + rest,
            Err(_) => rest,
        }
    }
}

/// Carry out a generation batch's bookkeeping: pair every successfully
/// resolved entry with its output path, in order, skipping failed entries,
/// and report how many succeeded — exactly the entries that resolved, not
/// the entries attempted.
#[verifier::loop_isolation(false)]
#[verifier::rlimit(60)]
pub fn plan_generation(cfg: &GenerateConfig, results: Vec<Result<Vec<u8>, SourceError>>) -> (r: (
    Vec<(String, Vec<u8>)>,
    usize,
))
    requires
        results@.len() == cfg.pipelines@.len(),
    ensures
        r.1 as nat == count_ok(results@),
        ({
            let plan = plan_spec(cfg.output_dir@, cfg.pipelines@, results@);
            &&& r.0@.len() == plan.len()
            &&& forall|k: int|
                0 <= k < plan.len() ==> (r.0@[k].0@ == plan[k].0 && r.0@[k].1@ == plan[k].1)
        }),
{
    let ghost ev = cfg.pipelines@;
    let ghost rv = results@;
    let ghost dir = cfg.output_dir@;
    let ghost plan = plan_spec(dir, ev, rv);
    let mut results = results;
    let mut out: Vec<(String, Vec<u8>)> = Vec::new();
    let mut c: usize = 0;
    let mut j: usize = 0;
    let ghost mut acc: Seq<(Seq<char>, Seq<u8>)> = Seq::empty();
    proof {
        assert(rv.len() == results.len());
        assert(ev.subrange(0, ev.len() as int) =~= ev);
        assert(rv.subrange(0, rv.len() as int) =~= rv);
        assert(acc + plan =~= plan);
    }
    while results.len() > 0
        invariant
            rv.len() <= usize::MAX,
            j + results.len() == rv.len(),
            c <= j,
            results@ == rv.subrange(j as int, rv.len() as int),
            ev.len() == rv.len(),
            c as nat + count_ok(rv.subrange(j as int, rv.len() as int)) == count_ok(rv),
            acc + plan_spec(
                dir,
                ev.subrange(j as int, ev.len() as int),
                rv.subrange(j as int, rv.len() as int),
            ) == plan,
            out@.len() == acc.len(),
            forall|k: int|
                0 <= k < acc.len() ==> (out@[k].0@ == acc[k].0 && out@[k].1@ == acc[k].1),
        decreases results.len(),
    {
        let ghost esuf = ev.subrange(j as int, ev.len() as int);
        let ghost rsuf = rv.subrange(j as int, rv.len() as int);
        let ghost old_acc = acc;
        proof {
            assert(esuf[0] == ev[j as int]);
            assert(rsuf[0] == rv[j as int]);
            assert(esuf.subrange(1, esuf.len() as int) =~= ev.subrange(
                j as int + 1,
                ev.len() as int,
            ));
            assert(rsuf.subrange(1, rsuf.len() as int) =~= rv.subrange(
                j as int + 1,
                rv.len() as int,
            ));
        }
        let res = results.remove(0);
        proof {
            assert(results@ =~= rv.subrange(j as int + 1, rv.len() as int));
        }
        match res {
            Ok(body) => {
                let p = entry_output_path(cfg.output_dir.as_str(), &cfg.pipelines[j]);
                out.push((p, body));
                c = c + 1;
                proof {
                    let step = (dir + "/"@ + ev[j as int].output@, rv[j as int]->Ok_0@);
                    acc = old_acc.push(step);
                    assert(old_acc + (seq![step] + plan_spec(
                        dir,
                        ev.subrange(j as int + 1, ev.len() as int),
                        rv.subrange(j as int + 1, rv.len() as int),
                    )) =~= old_acc.push(step) + plan_spec(
                        dir,
                        ev.subrange(j as int + 1, ev.len() as int),
                        rv.subrange(j as int + 1, rv.len() as int),
                    ));
                }
            },
            Err(_) => {},
        }
        j += 1;
    }
    proof {
        assert(rv.subrange(rv.len() as int, rv.len() as int) =~= Seq::<
            Result<Vec<u8>, SourceError>,
        >::empty());
        assert(ev.subrange(ev.len() as int, ev.len() as int) =~= Seq::<PipelineConfig>::empty());
        assert(acc + Seq::<(Seq<char>, Seq<u8>)>::empty() =~= acc);
    }
    (out, c)
}

} // verus!
