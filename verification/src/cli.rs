//! The command line's grammar: which command to run and with what.
use vstd::prelude::*;

use crate::search::SearchQuery;
use crate::text::{chars_eq, chars_of, parse_u64, parse_u64_spec, parse_usize, parse_usize_spec, push_str, string_of};

verus! {

broadcast use vstd::string::group_string_axioms;

/// How the command line is used.
pub const USAGE: &'static str = "Usage:\n  oriel resolve <youtube-url>\n  oriel search (--fixture <path> | --source <youtube-url>) --query <text> [--language <tag>] [--cache-dir <path>] [--refresh] [--limit <count>] [--start-ms <ms>] [--end-ms <ms>]\n  oriel read (--fixture <path> | --source <youtube-url>) [--language <tag>] [--cache-dir <path>] [--refresh]\n  oriel mcp --cache-dir <path>";

/// Where a search reads its source from.
#[derive(Clone, Debug, PartialEq, Eq)]
pub enum SearchInput {
    Fixture(String),
    LiveSource { url: String, language: Option<String>, cache_dir: Option<String>, refresh: bool },
}

pub enum SearchInputView {
    Fixture(Seq<char>),
    LiveSource {
        url: Seq<char>,
        language: Option<Seq<char>>,
        cache_dir: Option<Seq<char>>,
        refresh: bool,
    },
}

pub open spec fn opt_view(o: Option<String>) -> Option<Seq<char>> {
    match o {
        Some(s) => Some(s@),
        None => None,
    }
}

impl View for SearchInput {
    type V = SearchInputView;

    open spec fn view(&self) -> SearchInputView {
        match self {
            SearchInput::Fixture(p) => SearchInputView::Fixture(p@),
            SearchInput::LiveSource { url, language, cache_dir, refresh } =>
                SearchInputView::LiveSource {
                url: url@,
                language: opt_view(*language),
                cache_dir: opt_view(*cache_dir),
                refresh: *refresh,
            },
        }
    }
}

/// A parsed command.
#[derive(Clone, Debug, PartialEq, Eq)]
pub enum CliCommand {
    Help,
    Resolve(String),
    Search { input: SearchInput, query: SearchQuery },
    Read { input: SearchInput },
    Mcp { cache_dir: String },
}

pub enum CliCommandView {
    Help,
    Resolve(Seq<char>),
    Read { input: SearchInputView },
    Mcp { cache_dir: Seq<char> },
    Search {
        input: SearchInputView,
        text: Seq<char>,
        limit: usize,
        start_ms: Option<u64>,
        end_ms: Option<u64>,
    },
}

impl View for CliCommand {
    type V = CliCommandView;

    open spec fn view(&self) -> CliCommandView {
        match self {
            CliCommand::Help => CliCommandView::Help,
            CliCommand::Resolve(s) => CliCommandView::Resolve(s@),
            CliCommand::Read { input } => CliCommandView::Read { input: input@ },
            CliCommand::Mcp { cache_dir } => CliCommandView::Mcp { cache_dir: cache_dir@ },
            CliCommand::Search { input, query } => CliCommandView::Search {
                input: input@,
                text: query.text@,
                limit: query.limit,
                start_ms: query.start_ms,
                end_ms: query.end_ms,
            },
        }
    }
}

/// Why a command line was refused.
#[derive(Clone, Debug, PartialEq, Eq)]
pub enum CliError {
    Usage(String),
    InvalidNumber { flag: String, value: String },
}

pub enum CliErrorView {
    Usage(Seq<char>),
    InvalidNumber { flag: Seq<char>, value: Seq<char> },
}

impl View for CliError {
    type V = CliErrorView;

    open spec fn view(&self) -> CliErrorView {
        match self {
            CliError::Usage(m) => CliErrorView::Usage(m@),
            CliError::InvalidNumber { flag, value } => CliErrorView::InvalidNumber {
                flag: flag@,
                value: value@,
            },
        }
    }
}

/// The reader-facing text of a command-line error; a usage error is
/// followed by the usage.
pub open spec fn cli_error_text(e: CliErrorView) -> Seq<char> {
    match e {
        CliErrorView::Usage(m) => m + "\n\n"@ + USAGE@,
        CliErrorView::InvalidNumber { flag, value } => "'"@ + value + "' is not a valid number for "@
            + flag,
    }
}

impl CliError {
    /// What went wrong, for a reader.
    pub fn message(&self) -> (r: String)
        ensures
            r@ == cli_error_text(self@),
    {
        let mut out: Vec<char> = Vec::new();
        match self {
            CliError::Usage(m) => {
                push_str(&mut out, m.as_str());
                push_str(&mut out, "\n\n");
                push_str(&mut out, USAGE);
            },
            CliError::InvalidNumber { flag, value } => {
                push_str(&mut out, "'");
                push_str(&mut out, value.as_str());
                push_str(&mut out, "' is not a valid number for ");
                push_str(&mut out, flag.as_str());
            },
        }
        assert(out@ =~= cli_error_text(self@));
        string_of(&out)
    }
}

/// The flags of a command collected so far.
pub struct SearchFlags {
    pub fixture: Option<Seq<char>>,
    pub source: Option<Seq<char>>,
    pub language: Option<Seq<char>>,
    pub cache_dir: Option<Seq<char>>,
    pub query: Option<Seq<char>>,
    pub limit: Option<usize>,
    pub start_ms: Option<u64>,
    pub end_ms: Option<u64>,
    pub refresh: bool,
}

pub open spec fn no_flags() -> SearchFlags {
    SearchFlags {
        fixture: None,
        source: None,
        language: None,
        cache_dir: None,
        query: None,
        limit: None,
        start_ms: None,
        end_ms: None,
        refresh: false,
    }
}

/// The commands that take flags.
#[derive(Clone, Copy, Debug, PartialEq, Eq, Structural)]
pub enum FlagCommand {
    Search,
    Read,
    Mcp,
}

pub open spec fn command_name(c: FlagCommand) -> Seq<char> {
    match c {
        FlagCommand::Search => "search"@,
        FlagCommand::Read => "read"@,
        FlagCommand::Mcp => "mcp"@,
    }
}

/// The flags a command accepts: a search takes them all; a read takes
/// those that choose its source; the server takes only its cache directory.
pub open spec fn accepts(c: FlagCommand, flag: Seq<char>) -> bool {
    match c {
        FlagCommand::Search => flag == "--fixture"@ || flag == "--source"@ || flag == "--language"@
            || flag == "--cache-dir"@ || flag == "--query"@ || flag == "--limit"@ || flag
            == "--start-ms"@ || flag == "--end-ms"@ || flag == "--refresh"@,
        FlagCommand::Read => flag == "--fixture"@ || flag == "--source"@ || flag == "--language"@
            || flag == "--cache-dir"@ || flag == "--refresh"@,
        FlagCommand::Mcp => flag == "--cache-dir"@,
    }
}

pub open spec fn usage(m: Seq<char>) -> CliErrorView {
    CliErrorView::Usage(m)
}

pub open spec fn repeated(flag: Seq<char>) -> CliErrorView {
    usage(flag + " may only be supplied once"@)
}

/// Reads a command's flags from position `i` on: `--refresh` stands
/// alone, every other flag takes the next argument as its value, a number
/// is checked before a repeat, no flag may be given twice, and a flag the
/// command does not take is refused.
pub open spec fn flags_from(args: Seq<Seq<char>>, i: int, f: SearchFlags, c: FlagCommand) -> Result<
    SearchFlags,
    CliErrorView,
>
    decreases args.len() - i,
{
    if i < 0 || i >= args.len() {
        Ok(f)
    } else {
        let flag = args[i];
        if flag == "--refresh"@ && accepts(c, flag) {
            if f.refresh {
                Err(usage("--refresh may only be supplied once"@))
            } else {
                flags_from(args, i + 1, SearchFlags { refresh: true, ..f }, c)
            }
        } else if i + 1 >= args.len() {
            Err(usage(flag + " requires a value"@))
        } else if !accepts(c, flag) {
            Err(usage("unknown "@ + command_name(c) + " flag '"@ + flag + "'"@))
        } else {
            let value = args[i + 1];
            if flag == "--fixture"@ {
                if f.fixture is Some {
                    Err(repeated(flag))
                } else {
                    flags_from(args, i + 2, SearchFlags { fixture: Some(value), ..f }, c)
                }
            } else if flag == "--source"@ {
                if f.source is Some {
                    Err(repeated(flag))
                } else {
                    flags_from(args, i + 2, SearchFlags { source: Some(value), ..f }, c)
                }
            } else if flag == "--language"@ {
                if f.language is Some {
                    Err(repeated(flag))
                } else {
                    flags_from(args, i + 2, SearchFlags { language: Some(value), ..f }, c)
                }
            } else if flag == "--cache-dir"@ {
                if f.cache_dir is Some {
                    Err(repeated(flag))
                } else {
                    flags_from(args, i + 2, SearchFlags { cache_dir: Some(value), ..f }, c)
                }
            } else if flag == "--query"@ {
                if f.query is Some {
                    Err(repeated(flag))
                } else {
                    flags_from(args, i + 2, SearchFlags { query: Some(value), ..f }, c)
                }
            } else if flag == "--limit"@ {
                match parse_usize_spec(value) {
                    None => Err(CliErrorView::InvalidNumber { flag, value }),
                    Some(n) => if f.limit is Some {
                        Err(repeated(flag))
                    } else {
                        flags_from(args, i + 2, SearchFlags { limit: Some(n), ..f }, c)
                    },
                }
            } else if flag == "--start-ms"@ {
                match parse_u64_spec(value) {
                    None => Err(CliErrorView::InvalidNumber { flag, value }),
                    Some(n) => if f.start_ms is Some {
                        Err(repeated(flag))
                    } else {
                        flags_from(args, i + 2, SearchFlags { start_ms: Some(n), ..f }, c)
                    },
                }
            } else {
                match parse_u64_spec(value) {
                    None => Err(CliErrorView::InvalidNumber { flag, value }),
                    Some(n) => if f.end_ms is Some {
                        Err(repeated(flag))
                    } else {
                        flags_from(args, i + 2, SearchFlags { end_ms: Some(n), ..f }, c)
                    },
                }
            }
        }
    }
}

/// Where the collected flags say to read from: exactly one of a fixture
/// and a live source, the live-source options only with a live source, and
/// a cache directory whenever a refresh is asked for. `command` names the
/// command in the messages.
pub open spec fn input_of(f: SearchFlags, command: Seq<char>) -> Result<SearchInputView, CliErrorView> {
    match (f.fixture, f.source) {
        (Some(path), None) => if f.language is Some || f.cache_dir is Some || f.refresh {
            Err(usage("--language, --cache-dir and --refresh are only valid with --source"@))
        } else {
            Ok(SearchInputView::Fixture(path))
        },
        (None, Some(url)) => if f.refresh && f.cache_dir is None {
            Err(usage("--refresh requires --cache-dir"@))
        } else {
            Ok(
                SearchInputView::LiveSource {
                    url,
                    language: f.language,
                    cache_dir: f.cache_dir,
                    refresh: f.refresh,
                },
            )
        },
        (Some(_), Some(_)) => Err(
            usage(command + " accepts either --fixture or --source, not both"@),
        ),
        (None, None) => Err(usage(command + " requires either --fixture or --source"@)),
    }
}

/// Whether the arguments after a command ask for its help.
pub open spec fn asks_help(args: Seq<Seq<char>>) -> bool {
    args.len() > 0 && args[0] == "--help"@
}

/// What the arguments after `search` parse to; the limit is five unless
/// one is given.
pub open spec fn search_outcome(args: Seq<Seq<char>>) -> Result<CliCommandView, CliErrorView> {
    if asks_help(args) {
        Ok(CliCommandView::Help)
    } else {
        match flags_from(args, 0, no_flags(), FlagCommand::Search) {
            Err(e) => Err(e),
            Ok(f) => match input_of(f, "search"@) {
                Err(e) => Err(e),
                Ok(input) => match f.query {
                    None => Err(usage("search requires --query"@)),
                    Some(text) => Ok(
                        CliCommandView::Search {
                            input,
                            text,
                            limit: match f.limit {
                                Some(n) => n,
                                None => 5,
                            },
                            start_ms: f.start_ms,
                            end_ms: f.end_ms,
                        },
                    ),
                },
            },
        }
    }
}

/// What the arguments after `read` parse to: a fixture or a live source.
pub open spec fn read_outcome(args: Seq<Seq<char>>) -> Result<CliCommandView, CliErrorView> {
    if asks_help(args) {
        Ok(CliCommandView::Help)
    } else {
        match flags_from(args, 0, no_flags(), FlagCommand::Read) {
            Err(e) => Err(e),
            Ok(f) => match input_of(f, "read"@) {
                Err(e) => Err(e),
                Ok(input) => Ok(CliCommandView::Read { input }),
            },
        }
    }
}

/// What the arguments after `mcp` parse to: the server's cache directory.
pub open spec fn mcp_outcome(args: Seq<Seq<char>>) -> Result<CliCommandView, CliErrorView> {
    if asks_help(args) {
        Ok(CliCommandView::Help)
    } else {
        match flags_from(args, 0, no_flags(), FlagCommand::Mcp) {
            Err(e) => Err(e),
            Ok(f) => match f.cache_dir {
                None => Err(usage("mcp requires --cache-dir"@)),
                Some(d) => Ok(CliCommandView::Mcp { cache_dir: d }),
            },
        }
    }
}

/// What the arguments after `resolve` parse to: exactly one URL.
pub open spec fn resolve_outcome(args: Seq<Seq<char>>) -> Result<CliCommandView, CliErrorView> {
    if asks_help(args) {
        Ok(CliCommandView::Help)
    } else if args.len() == 0 {
        Err(usage("resolve requires a YouTube URL"@))
    } else if args.len() > 1 {
        Err(usage("resolve accepts exactly one YouTube URL"@))
    } else {
        Ok(CliCommandView::Resolve(args[0]))
    }
}

/// What a whole command line (without the program name) parses to.
pub open spec fn command_outcome(args: Seq<Seq<char>>) -> Result<CliCommandView, CliErrorView> {
    if args.len() == 0 {
        Err(usage("a command is required"@))
    } else if args[0] == "--help"@ {
        Ok(CliCommandView::Help)
    } else if args[0] == "resolve"@ {
        resolve_outcome(args.drop_first())
    } else if args[0] == "search"@ {
        search_outcome(args.drop_first())
    } else if args[0] == "read"@ {
        read_outcome(args.drop_first())
    } else if args[0] == "mcp"@ {
        mcp_outcome(args.drop_first())
    } else {
        Err(usage("unknown command '"@ + args[0] + "'"@))
    }
}

pub open spec fn strings_of(v: Seq<String>) -> Seq<Seq<char>> {
    v.map_values(|s: String| s@)
}

fn is_lit(s: &String, lit: &str) -> (r: bool)
    ensures
        r == (s@ == lit@),
{
    chars_eq(&chars_of(s.as_str()), &chars_of(lit))
}

fn usage_error(m: &str) -> (e: CliError)
    ensures
        e@ == usage(m@),
{
    CliError::Usage(m.to_owned())
}

fn repeated_error(flag: &String) -> (e: CliError)
    ensures
        e@ == repeated(flag@),
{
    let mut out = chars_of(flag.as_str());
    push_str(&mut out, " may only be supplied once");
    CliError::Usage(string_of(&out))
}

fn accepts_flag(c: FlagCommand, flag: &String) -> (r: bool)
    ensures
        r == accepts(c, flag@),
{
    match c {
        FlagCommand::Search => is_lit(flag, "--fixture") || is_lit(flag, "--source") || is_lit(
            flag,
            "--language",
        ) || is_lit(flag, "--cache-dir") || is_lit(flag, "--query") || is_lit(flag, "--limit")
            || is_lit(flag, "--start-ms") || is_lit(flag, "--end-ms") || is_lit(flag, "--refresh"),
        FlagCommand::Read => is_lit(flag, "--fixture") || is_lit(flag, "--source") || is_lit(
            flag,
            "--language",
        ) || is_lit(flag, "--cache-dir") || is_lit(flag, "--refresh"),
        FlagCommand::Mcp => is_lit(flag, "--cache-dir"),
    }
}

/// The flag values of a command line.
pub struct Flags {
    pub fixture: Option<String>,
    pub source: Option<String>,
    pub language: Option<String>,
    pub cache_dir: Option<String>,
    pub query: Option<String>,
    pub limit: Option<usize>,
    pub start_ms: Option<u64>,
    pub end_ms: Option<u64>,
    pub refresh: bool,
}

impl View for Flags {
    type V = SearchFlags;

    open spec fn view(&self) -> SearchFlags {
        SearchFlags {
            fixture: opt_view(self.fixture),
            source: opt_view(self.source),
            language: opt_view(self.language),
            cache_dir: opt_view(self.cache_dir),
            query: opt_view(self.query),
            limit: self.limit,
            start_ms: self.start_ms,
            end_ms: self.end_ms,
            refresh: self.refresh,
        }
    }
}

/// Reads the flags of command `c` from position `from` on.
#[verifier::rlimit(40)]
pub fn read_flags(args: &Vec<String>, from: usize, c: FlagCommand) -> (r: Result<Flags, CliError>)
    requires
        from <= args@.len(),
    ensures
        match flags_from(strings_of(args@).skip(from as int), 0, no_flags(), c) {
            Ok(f) => r matches Ok(x) && x@ == f,
            Err(e) => r matches Err(x) && x@ == e,
        },
{
    let ghost all = strings_of(args@).skip(from as int);
    let mut f = Flags {
        fixture: None,
        source: None,
        language: None,
        cache_dir: None,
        query: None,
        limit: None,
        start_ms: None,
        end_ms: None,
        refresh: false,
    };
    let mut i: usize = from;
    while i < args.len()
        invariant
            from <= i <= args@.len(),
            all == strings_of(args@).skip(from as int),
            all.len() == args@.len() - from,
            flags_from(all, 0, no_flags(), c) == flags_from(all, i - from, f@, c),
        decreases args.len() - i,
    {
        let ghost k = i - from;
        let flag = &args[i];
        assert(all[k] == flag@);
        let known = accepts_flag(c, flag);
        if known && is_lit(flag, "--refresh") {
            if f.refresh {
                return Err(usage_error("--refresh may only be supplied once"));
            }
            f.refresh = true;
            i = i + 1;
            continue;
        }
        if i + 1 >= args.len() {
            let mut out = chars_of(flag.as_str());
            push_str(&mut out, " requires a value");
            return Err(CliError::Usage(string_of(&out)));
        }
        if !known {
            let mut out = chars_of("unknown ");
            push_str(
                &mut out,
                match c {
                    FlagCommand::Search => "search",
                    FlagCommand::Read => "read",
                    FlagCommand::Mcp => "mcp",
                },
            );
            push_str(&mut out, " flag '");
            push_str(&mut out, flag.as_str());
            push_str(&mut out, "'");
            return Err(CliError::Usage(string_of(&out)));
        }
        let value = &args[i + 1];
        assert(all[k + 1] == value@);
        if is_lit(flag, "--fixture") {
            if f.fixture.is_some() {
                return Err(repeated_error(flag));
            }
            f.fixture = Some(value.clone());
        } else if is_lit(flag, "--source") {
            if f.source.is_some() {
                return Err(repeated_error(flag));
            }
            f.source = Some(value.clone());
        } else if is_lit(flag, "--language") {
            if f.language.is_some() {
                return Err(repeated_error(flag));
            }
            f.language = Some(value.clone());
        } else if is_lit(flag, "--cache-dir") {
            if f.cache_dir.is_some() {
                return Err(repeated_error(flag));
            }
            f.cache_dir = Some(value.clone());
        } else if is_lit(flag, "--query") {
            if f.query.is_some() {
                return Err(repeated_error(flag));
            }
            f.query = Some(value.clone());
        } else if is_lit(flag, "--limit") {
            match parse_usize(&chars_of(value.as_str())) {
                None => {
                    return Err(CliError::InvalidNumber { flag: flag.clone(), value: value.clone() });
                },
                Some(n) => {
                    if f.limit.is_some() {
                        return Err(repeated_error(flag));
                    }
                    f.limit = Some(n);
                },
            }
        } else if is_lit(flag, "--start-ms") {
            match parse_u64(&chars_of(value.as_str())) {
                None => {
                    return Err(CliError::InvalidNumber { flag: flag.clone(), value: value.clone() });
                },
                Some(n) => {
                    if f.start_ms.is_some() {
                        return Err(repeated_error(flag));
                    }
                    f.start_ms = Some(n);
                },
            }
        } else {
            match parse_u64(&chars_of(value.as_str())) {
                None => {
                    return Err(CliError::InvalidNumber { flag: flag.clone(), value: value.clone() });
                },
                Some(n) => {
                    if f.end_ms.is_some() {
                        return Err(repeated_error(flag));
                    }
                    f.end_ms = Some(n);
                },
            }
        }
        i = i + 2;
    }
    Ok(f)
}

fn asks_help_at(args: &Vec<String>, from: usize) -> (r: bool)
    requires
        from <= args@.len(),
    ensures
        r == asks_help(strings_of(args@).skip(from as int)),
{
    if from < args.len() {
        assert(strings_of(args@).skip(from as int)[0] == args@[from as int]@);
        is_lit(&args[from], "--help")
    } else {
        false
    }
}

fn input_from(f: Flags, command: &str) -> (r: Result<(SearchInput, Option<String>, Option<usize>, Option<u64>, Option<u64>), CliError>)
    ensures
        match input_of(f@, command@) {
            Err(e) => r matches Err(x) && x@ == e,
            Ok(input) => r matches Ok((i, q, l, s, e)) && i@ == input && opt_view(q) == f@.query
                && l == f.limit && s == f.start_ms && e == f.end_ms,
        },
{
    let input = match (f.fixture, f.source) {
        (Some(path), None) => {
            if f.language.is_some() || f.cache_dir.is_some() || f.refresh {
                return Err(
                    usage_error("--language, --cache-dir and --refresh are only valid with --source"),
                );
            }
            SearchInput::Fixture(path)
        },
        (None, Some(url)) => {
            if f.refresh && f.cache_dir.is_none() {
                return Err(usage_error("--refresh requires --cache-dir"));
            }
            SearchInput::LiveSource {
                url,
                language: f.language,
                cache_dir: f.cache_dir,
                refresh: f.refresh,
            }
        },
        (Some(_), Some(_)) => {
            let mut out = chars_of(command);
            push_str(&mut out, " accepts either --fixture or --source, not both");
            return Err(CliError::Usage(string_of(&out)));
        },
        (None, None) => {
            let mut out = chars_of(command);
            push_str(&mut out, " requires either --fixture or --source");
            return Err(CliError::Usage(string_of(&out)));
        },
    };
    Ok((input, f.query, f.limit, f.start_ms, f.end_ms))
}

/// Parses the arguments after `search`.
pub fn parse_search(args: &Vec<String>, from: usize) -> (r: Result<CliCommand, CliError>)
    requires
        from <= args@.len(),
    ensures
        match search_outcome(strings_of(args@).skip(from as int)) {
            Ok(c) => r matches Ok(x) && x@ == c,
            Err(e) => r matches Err(x) && x@ == e,
        },
{
    if asks_help_at(args, from) {
        return Ok(CliCommand::Help);
    }
    let f = read_flags(args, from, FlagCommand::Search)?;
    let (input, query, limit, start_ms, end_ms) = input_from(f, "search")?;
    let text = match query {
        Some(t) => t,
        None => {
            return Err(usage_error("search requires --query"));
        },
    };
    let mut q = SearchQuery::new(text);
    if let Some(n) = limit {
        q.limit = n;
    }
    q.start_ms = start_ms;
    q.end_ms = end_ms;
    Ok(CliCommand::Search { input, query: q })
}

/// Parses the arguments after `read`.
pub fn parse_read(args: &Vec<String>, from: usize) -> (r: Result<CliCommand, CliError>)
    requires
        from <= args@.len(),
    ensures
        match read_outcome(strings_of(args@).skip(from as int)) {
            Ok(c) => r matches Ok(x) && x@ == c,
            Err(e) => r matches Err(x) && x@ == e,
        },
{
    if asks_help_at(args, from) {
        return Ok(CliCommand::Help);
    }
    let f = read_flags(args, from, FlagCommand::Read)?;
    let (input, _query, _limit, _start, _end) = input_from(f, "read")?;
    Ok(CliCommand::Read { input })
}

/// Parses the arguments after `mcp`.
pub fn parse_mcp(args: &Vec<String>, from: usize) -> (r: Result<CliCommand, CliError>)
    requires
        from <= args@.len(),
    ensures
        match mcp_outcome(strings_of(args@).skip(from as int)) {
            Ok(c) => r matches Ok(x) && x@ == c,
            Err(e) => r matches Err(x) && x@ == e,
        },
{
    if asks_help_at(args, from) {
        return Ok(CliCommand::Help);
    }
    let f = read_flags(args, from, FlagCommand::Mcp)?;
    match f.cache_dir {
        Some(d) => Ok(CliCommand::Mcp { cache_dir: d }),
        None => Err(usage_error("mcp requires --cache-dir")),
    }
}

/// Parses the arguments after `resolve`.
pub fn parse_resolve(args: &Vec<String>, from: usize) -> (r: Result<CliCommand, CliError>)
    requires
        from <= args@.len(),
    ensures
        match resolve_outcome(strings_of(args@).skip(from as int)) {
            Ok(c) => r matches Ok(x) && x@ == c,
            Err(e) => r matches Err(x) && x@ == e,
        },
{
    if asks_help_at(args, from) {
        return Ok(CliCommand::Help);
    }
    if from >= args.len() {
        return Err(usage_error("resolve requires a YouTube URL"));
    }
    if args.len() - from > 1 {
        return Err(usage_error("resolve accepts exactly one YouTube URL"));
    }
    Ok(CliCommand::Resolve(args[from].clone()))
}

/// Parses a command line, without the program name.
pub fn parse_command(args: &Vec<String>) -> (r: Result<CliCommand, CliError>)
    ensures
        match command_outcome(strings_of(args@)) {
            Ok(c) => r matches Ok(x) && x@ == c,
            Err(e) => r matches Err(x) && x@ == e,
        },
{
    let ghost all = strings_of(args@);
    if args.len() == 0 {
        return Err(usage_error("a command is required"));
    }
    assert(all.drop_first() =~= all.skip(1));
    if is_lit(&args[0], "--help") {
        Ok(CliCommand::Help)
    } else if is_lit(&args[0], "resolve") {
        parse_resolve(args, 1)
    } else if is_lit(&args[0], "search") {
        parse_search(args, 1)
    } else if is_lit(&args[0], "read") {
        parse_read(args, 1)
    } else if is_lit(&args[0], "mcp") {
        parse_mcp(args, 1)
    } else {
        let mut out = chars_of("unknown command '");
        push_str(&mut out, args[0].as_str());
        push_str(&mut out, "'");
        Err(CliError::Usage(string_of(&out)))
    }
}

} // verus!
