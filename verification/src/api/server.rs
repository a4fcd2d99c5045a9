//! Start-up decisions of the API server: its command line and the settings of its
//! router read from the environment.

use vstd::prelude::*;

use crate::num::{parse_unsigned, parse_unsigned_str};

verus! {

/// Where the server listens and keeps its indices.
#[derive(Debug)]
pub struct ServerArgs {
    pub host: String,
    pub port: u16,
    pub index_dir: String,
}

/// Why a command line is refused.
#[derive(Debug)]
pub enum CliError {
    /// `--host` without a value.
    MissingHost,
    /// `--port` without a value that is a port number.
    InvalidPort,
    /// `--index-dir` without a value.
    MissingIndexDir,
    /// An argument that is no option.
    UnknownArgument(String),
}

/// What the command line asks for.
#[derive(Debug)]
pub enum CliOutcome {
    Run(ServerArgs),
    Help,
    Failed(CliError),
}

/// The mathematical value of a [`CliOutcome`].
pub enum CliResult {
    Run { host: Seq<char>, port: u16, index_dir: Seq<char> },
    Help,
    MissingHost,
    InvalidPort,
    MissingIndexDir,
    Unknown(Seq<char>),
}

pub open spec fn cli_view(o: CliOutcome) -> CliResult {
    match o {
        CliOutcome::Run(a) => CliResult::Run { host: a.host@, port: a.port, index_dir: a.index_dir@ },
        CliOutcome::Help => CliResult::Help,
        CliOutcome::Failed(CliError::MissingHost) => CliResult::MissingHost,
        CliOutcome::Failed(CliError::InvalidPort) => CliResult::InvalidPort,
        CliOutcome::Failed(CliError::MissingIndexDir) => CliResult::MissingIndexDir,
        CliOutcome::Failed(CliError::UnknownArgument(a)) => CliResult::Unknown(a@),
    }
}

/// The arguments from position `i` on, with the values chosen so far.
pub open spec fn cli_scan(
    args: Seq<Seq<char>>,
    i: nat,
    host: Seq<char>,
    port: u16,
    index_dir: Seq<char>,
) -> CliResult
    decreases args.len() - i,
{
    if i >= args.len() {
        CliResult::Run { host, port, index_dir }
    } else {
        let a = args[i as int];
        if a == "--host"@ || a == "-h"@ {
            if i + 1 < args.len() {
                cli_scan(args, i + 2, args[i + 1 as int], port, index_dir)
            } else {
                CliResult::MissingHost
            }
        } else if a == "--port"@ || a == "-p"@ {
            if i + 1 < args.len() && parse_unsigned(args[i + 1 as int], 65535) is Some {
                cli_scan(
                    args,
                    i + 2,
                    host,
                    parse_unsigned(args[i + 1 as int], 65535).unwrap() as u16,
                    index_dir,
                )
            } else {
                CliResult::InvalidPort
            }
        } else if a == "--index-dir"@ || a == "-d"@ {
            if i + 1 < args.len() {
                cli_scan(args, i + 2, host, port, args[i + 1 as int])
            } else {
                CliResult::MissingIndexDir
            }
        } else if a == "--help"@ {
            CliResult::Help
        } else {
            CliResult::Unknown(a)
        }
    }
}

/// The command line `args` (program name first): options are read in order, each of
/// `--host`/`-h`, `--port`/`-p` and `--index-dir`/`-d` taking the next argument as
/// its value; `--help` asks for the usage text; defaults are `0.0.0.0`, `8080` and
/// `./indices`.
pub open spec fn server_args(args: Seq<Seq<char>>) -> CliResult {
    cli_scan(args, 1, "0.0.0.0"@, 8080, "./indices"@)
}

pub open spec fn strings_view(v: Seq<String>) -> Seq<Seq<char>> {
    v.map_values(|s: String| s@)
}

fn text(lit: &str) -> (s: String)
    ensures
        s@ == lit@,
{
    broadcast use vstd::string::group_string_axioms;

    lit.to_string()
}

fn is_lit(a: &String, lit: &str) -> (b: bool)
    ensures
        b == (a@ == lit@),
{
    *a == text(lit)
}

/// Reads the server's command line (program name first).
pub fn parse_server_args(args: &Vec<String>) -> (r: CliOutcome)
    ensures
        cli_view(r) == server_args(strings_view(args@)),
{
    let ghost av = strings_view(args@);
    let mut host = text("0.0.0.0");
    let mut port: u16 = 8080;
    let mut index_dir = text("./indices");
    let mut i: usize = 1;
    let n = args.len();
    while i < n
        invariant
            n == args.len() == av.len(),
            av == strings_view(args@),
            1 <= i,
            cli_scan(av, i as nat, host@, port, index_dir@) == server_args(av),
        decreases n - i,
    {
        let a = &args[i];
        assert(av[i as int] == a@);
        if is_lit(a, "--host") || is_lit(a, "-h") {
            if i + 1 < n {
                host = args[i + 1].clone();
                assert(av[i + 1] == host@);
                i = i + 2;
            } else {
                return CliOutcome::Failed(CliError::MissingHost);
            }
        } else if is_lit(a, "--port") || is_lit(a, "-p") {
            if i + 1 < n {
                assert(av[i + 1] == args@[i + 1]@);
                match parse_unsigned_str(args[i + 1].as_str(), 65535) {
                    Some(p) => {
                        port = p as u16;
                        i = i + 2;
                    },
                    None => {
                        return CliOutcome::Failed(CliError::InvalidPort);
                    },
                }
            } else {
                return CliOutcome::Failed(CliError::InvalidPort);
            }
        } else if is_lit(a, "--index-dir") || is_lit(a, "-d") {
            if i + 1 < n {
                index_dir = args[i + 1].clone();
                assert(av[i + 1] == index_dir@);
                i = i + 2;
            } else {
                return CliOutcome::Failed(CliError::MissingIndexDir);
            }
        } else if is_lit(a, "--help") {
            return CliOutcome::Help;
        } else {
            return CliOutcome::Failed(CliError::UnknownArgument(a.clone()));
        }
    }
    CliOutcome::Run(ServerArgs { host, port, index_dir })
}

proof fn lemma_scan_frame(
    a: Seq<Seq<char>>,
    b: Seq<Seq<char>>,
    i: nat,
    host: Seq<char>,
    port: u16,
    index_dir: Seq<char>,
)
    requires
        a.len() == b.len(),
        forall|k: int| i <= k < a.len() ==> a[k] == b[k],
    ensures
        cli_scan(a, i, host, port, index_dir) == cli_scan(b, i, host, port, index_dir),
    decreases a.len() - i,
{
    if i < a.len() {
        assert(a[i as int] == b[i as int]);
        if i + 1 < a.len() {
            assert(a[i + 1 as int] == b[i + 1 as int]);
        }
        if i + 2 <= a.len() {
            lemma_scan_frame(a, b, i + 2, host, port, index_dir);
            lemma_scan_frame(a, b, i + 2, a[i + 1 as int], port, index_dir);
            lemma_scan_frame(a, b, i + 2, host, port, a[i + 1 as int]);
            if parse_unsigned(a[i + 1 as int], 65535) is Some {
                lemma_scan_frame(
                    a,
                    b,
                    i + 2,
                    host,
                    parse_unsigned(a[i + 1 as int], 65535).unwrap() as u16,
                    index_dir,
                );
            }
        }
    }
}

/// Each short option means its long option: where the command line is read as an
/// option, `-h` reads as `--host`, `-p` as `--port` and `-d` as `--index-dir`, with
/// the same outcome.
pub proof fn lemma_short_options(
    args: Seq<Seq<char>>,
    i: nat,
    host: Seq<char>,
    port: u16,
    index_dir: Seq<char>,
)
    requires
        i < args.len(),
    ensures
        args[i as int] == "-h"@ ==> cli_scan(args, i, host, port, index_dir) == cli_scan(
            args.update(i as int, "--host"@),
            i,
            host,
            port,
            index_dir,
        ),
        args[i as int] == "-p"@ ==> cli_scan(args, i, host, port, index_dir) == cli_scan(
            args.update(i as int, "--port"@),
            i,
            host,
            port,
            index_dir,
        ),
        args[i as int] == "-d"@ ==> cli_scan(args, i, host, port, index_dir) == cli_scan(
            args.update(i as int, "--index-dir"@),
            i,
            host,
            port,
            index_dir,
        ),
{
    reveal_strlit("-h");
    reveal_strlit("-p");
    reveal_strlit("-d");
    reveal_strlit("--host");
    reveal_strlit("--port");
    reveal_strlit("--index-dir");
    reveal_strlit("--help");
    assert("-h"@.len() == 2 && "-p"@.len() == 2 && "-d"@.len() == 2);
    assert("-h"@[1] == 'h' && "-p"@[1] == 'p' && "-d"@[1] == 'd');
    assert("--host"@.len() == 6 && "--port"@.len() == 6 && "--index-dir"@.len() == 11);
    assert("--host"@[2] == 'h' && "--port"@[2] == 'p');
    let bh = args.update(i as int, "--host"@);
    let bp = args.update(i as int, "--port"@);
    let bd = args.update(i as int, "--index-dir"@);
    if i + 1 < args.len() {
        assert(bh[i + 1 as int] == args[i + 1 as int] && bp[i + 1 as int] == args[i + 1 as int] && bd[i + 1 as int] == args[i + 1 as int]);
    }
    if i + 2 <= args.len() {
        lemma_scan_frame(args, bh, i + 2, args[i + 1 as int], port, index_dir);
        lemma_scan_frame(args, bd, i + 2, host, port, args[i + 1 as int]);
        if parse_unsigned(args[i + 1 as int], 65535) is Some {
            lemma_scan_frame(
                args,
                bp,
                i + 2,
                host,
                parse_unsigned(args[i + 1 as int], 65535).unwrap() as u16,
                index_dir,
            );
        }
    }
    if args[i as int] == "-p"@ {
        assert(args[i as int] != "--host"@ && args[i as int] != "-h"@);
    }
    if args[i as int] == "-d"@ {
        assert(args[i as int] != "--host"@ && args[i as int] != "-h"@);
        assert(args[i as int] != "--port"@ && args[i as int] != "-p"@);
    }
    assert(bh[i as int] == "--host"@);
    assert(bp[i as int] == "--port"@ && bp[i as int] != "--host"@ && bp[i as int] != "-h"@);
    assert(bd[i as int] == "--index-dir"@ && bd[i as int] != "--host"@ && bd[i as int] != "-h"@
        && bd[i as int] != "--port"@ && bd[i as int] != "-p"@);
}

/// The usage text is asked for only by an argument `--help` that the command line
/// reaches as an option.
pub proof fn lemma_help_needs_help_flag(
    args: Seq<Seq<char>>,
    i: nat,
    host: Seq<char>,
    port: u16,
    index_dir: Seq<char>,
)
    ensures
        cli_scan(args, i, host, port, index_dir) is Help ==> exists|k: int|
            i <= k < args.len() && #[trigger] args[k] == "--help"@,
    decreases args.len() - i,
{
    if i < args.len() {
        let a = args[i as int];
        if i + 2 <= args.len() {
            lemma_help_needs_help_flag(args, i + 2, host, port, index_dir);
            lemma_help_needs_help_flag(args, i + 2, args[i + 1 as int], port, index_dir);
            lemma_help_needs_help_flag(args, i + 2, host, port, args[i + 1 as int]);
            if parse_unsigned(args[i + 1 as int], 65535) is Some {
                lemma_help_needs_help_flag(
                    args,
                    i + 2,
                    host,
                    parse_unsigned(args[i + 1 as int], 65535).unwrap() as u16,
                    index_dir,
                );
            }
        }
        if cli_scan(args, i, host, port, index_dir) is Help && a == "--help"@ {
            assert(args[i as int] == "--help"@);
        }
    }
}

/// A setting whose option is absent from the rest of the command line keeps the value
/// it had.
pub proof fn lemma_absent_option_keeps(
    args: Seq<Seq<char>>,
    i: nat,
    host: Seq<char>,
    port: u16,
    index_dir: Seq<char>,
)
    ensures
        cli_scan(args, i, host, port, index_dir) matches CliResult::Run { host: h, port: p, index_dir: d }
            ==> {
            &&& (forall|k: int| i <= k < args.len() ==> #[trigger] args[k] != "--host"@ && args[k]
                != "-h"@) ==> h == host
            &&& (forall|k: int| i <= k < args.len() ==> #[trigger] args[k] != "--port"@ && args[k]
                != "-p"@) ==> p == port
            &&& (forall|k: int| i <= k < args.len() ==> #[trigger] args[k] != "--index-dir"@
                && args[k] != "-d"@) ==> d == index_dir
        },
    decreases args.len() - i,
{
    if i < args.len() {
        if i + 2 <= args.len() {
            lemma_absent_option_keeps(args, i + 2, args[i + 1 as int], port, index_dir);
            lemma_absent_option_keeps(args, i + 2, host, port, args[i + 1 as int]);
            if parse_unsigned(args[i + 1 as int], 65535) is Some {
                lemma_absent_option_keeps(
                    args,
                    i + 2,
                    host,
                    parse_unsigned(args[i + 1 as int], 65535).unwrap() as u16,
                    index_dir,
                );
            }
        }
        let a = args[i as int];
        assert(a == args[i as int]);
    }
}

/// Without its option, the server listens on `0.0.0.0`, port 8080, and keeps its
/// indices in `./indices`.
pub proof fn lemma_server_defaults(args: Seq<Seq<char>>)
    ensures
        server_args(args) matches CliResult::Run { host, port, index_dir } ==> {
            &&& (forall|k: int| 1 <= k < args.len() ==> #[trigger] args[k] != "--host"@ && args[k]
                != "-h"@) ==> host == "0.0.0.0"@
            &&& (forall|k: int| 1 <= k < args.len() ==> #[trigger] args[k] != "--port"@ && args[k]
                != "-p"@) ==> port == 8080
            &&& (forall|k: int| 1 <= k < args.len() ==> #[trigger] args[k] != "--index-dir"@
                && args[k] != "-d"@) ==> index_dir == "./indices"@
        },
{
    lemma_absent_option_keeps(args, 1, "0.0.0.0"@, 8080, "./indices"@);
}

/// The lowercase form of a string, as `str::to_lowercase` gives it.
pub uninterp spec fn lowercase_of(s: Seq<char>) -> Seq<char>;

/// Calls std's `str::to_lowercase`; trusted to give `lowercase_of` of its argument
/// (Unicode lowercase mapping, which depends on the text alone).
#[verifier::external_body]
fn to_lowercase(s: &str) -> (r: String)
    ensures
        r@ == lowercase_of(s@),
{
    s.to_lowercase()
}

/// How the router limits traffic.
#[derive(Debug)]
pub struct RouterSettings {
    pub rate_limit_enabled: bool,
    pub rate_limit_per_second: u64,
    pub rate_limit_burst_size: u32,
    pub concurrency_limit: usize,
}

pub open spec fn opt_view(v: Option<String>) -> Option<Seq<char>> {
    match v {
        Some(s) => Some(s@),
        None => None,
    }
}

/// The lowercase words that switch a setting on.
pub open spec fn is_on_word(l: Seq<char>) -> bool {
    l == "true"@ || l == "1"@ || l == "yes"@
}

/// A switch is on when its lowercase form is `true`, `1` or `yes`.
pub open spec fn flag_enabled(v: Option<Seq<char>>) -> bool {
    match v {
        Some(s) => is_on_word(lowercase_of(s)),
        None => false,
    }
}

/// Whether an already lowercased switch value is `true`, `1` or `yes`.
pub fn on_word(lowered: &str) -> (b: bool)
    ensures
        b == is_on_word(lowered@),
{
    broadcast use vstd::string::group_string_axioms;

    let l = lowered.to_string();
    is_lit(&l, "true") || is_lit(&l, "1") || is_lit(&l, "yes")
}

/// The number a variable holds (for a type whose largest value is `max`), or `default`
/// when it is unset or not such a number.
pub open spec fn number_or(v: Option<Seq<char>>, max: nat, default: nat) -> nat {
    match v {
        Some(s) => match parse_unsigned(s, max) {
            Some(n) => n,
            None => default,
        },
        None => default,
    }
}

fn read_number(v: &Option<String>, max: u64, default: u64) -> (r: u64)
    requires
        default <= max,
    ensures
        r as nat == number_or(opt_view(*v), max as nat, default as nat),
        r <= max,
{
    match v {
        Some(s) => match parse_unsigned_str(s.as_str(), max) {
            Some(n) => n,
            None => default,
        },
        None => default,
    }
}

/// The router's limits from the environment variables `RATE_LIMIT_ENABLED`,
/// `RATE_LIMIT_PER_SECOND`, `RATE_LIMIT_BURST_SIZE` and `CONCURRENCY_LIMIT` (each
/// `None` when unset): rate limiting is off unless switched on, and the numbers default
/// to 50 per second, bursts of 100 and 100 requests in flight.
pub fn router_settings(
    rate_limit_enabled: &Option<String>,
    rate_limit_per_second: &Option<String>,
    rate_limit_burst_size: &Option<String>,
    concurrency_limit: &Option<String>,
) -> (r: RouterSettings)
    ensures
        r.rate_limit_enabled == flag_enabled(opt_view(*rate_limit_enabled)),
        r.rate_limit_per_second as nat == number_or(
            opt_view(*rate_limit_per_second),
            u64::MAX as nat,
            50,
        ),
        r.rate_limit_burst_size as nat == number_or(
            opt_view(*rate_limit_burst_size),
            u32::MAX as nat,
            100,
        ),
        r.concurrency_limit as nat == number_or(
            opt_view(*concurrency_limit),
            usize::MAX as nat,
            100,
        ),
{
    let enabled = match rate_limit_enabled {
        Some(v) => {
            let l = to_lowercase(v.as_str());
            on_word(l.as_str())
        },
        None => false,
    };
    let per_second = read_number(rate_limit_per_second, u64::MAX, 50);
    let burst = read_number(rate_limit_burst_size, u32::MAX as u64, 100);
    let concurrency = read_number(concurrency_limit, usize::MAX as u64, 100);
    RouterSettings {
        rate_limit_enabled: enabled,
        rate_limit_per_second: per_second,
        rate_limit_burst_size: burst as u32,
        concurrency_limit: concurrency as usize,
    }
}

} // verus!
