//! The command line: a subcommand with its options, and two global flags.
//!
//! An option is written `-s` or `--long`; one that takes a value takes the
//! next argument, which may not begin with `-`. The flags `-v`/`--verbose`
//! and `-n`/`--no-color` may stand anywhere, also before the subcommand.
//! When an option is given twice, the last value counts.

use vstd::prelude::*;
use crate::text::text_eq;

verus! {

/// What an option takes.
#[derive(Clone, Copy, Debug, PartialEq, Eq, Structural)]
pub enum OptionKind {
    /// Nothing: its presence is the setting.
    Flag,
    /// A text value.
    Text,
    /// A decimal number.
    Number,
}

/// One option of a subcommand.
#[derive(Clone, Copy, Debug)]
pub struct OptionSpec {
    pub short: char,
    pub long: &'static str,
    pub kind: OptionKind,
}

/// The subcommands.
#[derive(Clone, Copy, Debug, PartialEq, Eq, Structural)]
pub enum CommandKind {
    Index,
    Search,
    Stats,
    GenerateTags,
}

/// What the command line asks for.
#[derive(Clone, Debug)]
pub struct Cli {
    pub command: Commands,
    /// Debug-level logging.
    pub verbose: bool,
    /// No colours in the terminal.
    pub no_color: bool,
}

/// A subcommand with its settings.
#[derive(Clone, Debug)]
pub enum Commands {
    /// Index the projects below a directory.
    Index {
        projects_dir: String,
        output: String,
        ollama: bool,
        max_depth: usize,
        min_depth: usize,
        exclude: String,
    },
    /// Search an index.
    Search { query: String, index_file: String, tags_only: bool, category_only: bool },
    /// Show statistics of an index.
    Stats { index_file: String, detailed: bool },
    /// Generate the tags of one project.
    GenerateTags { project_dir: String, output: Option<String> },
}

/// Why a command line was refused.
#[derive(Clone, Copy, Debug, PartialEq, Eq, Structural)]
pub enum CliErrorKind {
    /// No subcommand was given.
    MissingSubcommand,
    /// The subcommand is not known.
    UnknownSubcommand,
    /// An option is not known where it stands.
    UnknownArgument,
    /// An option that takes a value is not followed by one.
    MissingValue,
    /// A number option's value is not a decimal number that fits.
    InvalidNumber,
    /// An argument stands where none is expected.
    UnexpectedArgument,
    /// A required argument is absent.
    MissingArgument,
}

/// A refused command line: why, and the argument at fault (for a missing
/// argument, its name; for a missing subcommand, nothing).
#[derive(Clone, Debug)]
pub struct CliError {
    pub kind: CliErrorKind,
    pub argument: String,
}

pub open spec fn opt(short: char, long: &'static str, kind: OptionKind) -> OptionSpec {
    OptionSpec { short, long, kind }
}

/// The options of a subcommand; the two global flags come first.
pub open spec fn table_of(c: CommandKind) -> Seq<OptionSpec> {
    let globals = seq![opt('v', "verbose", OptionKind::Flag), opt('n', "no-color", OptionKind::Flag)];
    match c {
        CommandKind::Index => globals + seq![
            opt('d', "projects-dir", OptionKind::Text),
            opt('o', "output", OptionKind::Text),
            opt('a', "ollama", OptionKind::Flag),
            opt('x', "max-depth", OptionKind::Number),
            opt('m', "min-depth", OptionKind::Number),
            opt('e', "exclude", OptionKind::Text),
        ],
        CommandKind::Search => globals + seq![
            opt('i', "index-file", OptionKind::Text),
            opt('t', "tags-only", OptionKind::Flag),
            opt('c', "category-only", OptionKind::Flag),
        ],
        CommandKind::Stats => globals + seq![
            opt('i', "index-file", OptionKind::Text),
            opt('d', "detailed", OptionKind::Flag),
        ],
        CommandKind::GenerateTags => globals + seq![
            opt('p', "project-dir", OptionKind::Text),
            opt('o', "output", OptionKind::Text),
        ],
    }
}

/// The subcommand that a word names.
pub open spec fn command_named(t: Seq<char>) -> Option<CommandKind> {
    if t == "index"@ {
        Some(CommandKind::Index)
    } else if t == "search"@ {
        Some(CommandKind::Search)
    } else if t == "stats"@ {
        Some(CommandKind::Stats)
    } else if t == "generate-tags"@ {
        Some(CommandKind::GenerateTags)
    } else {
        None
    }
}

pub open spec fn is_dash(t: Seq<char>) -> bool {
    t.len() > 0 && t[0] == '-'
}

/// Whether `t` is `-s` or `--long` for the option.
pub open spec fn names(t: Seq<char>, o: OptionSpec) -> bool {
    t == seq!['-', o.short] || t == seq!['-', '-'] + o.long@
}

/// The index of the first option at or after `k` that `t` names, or -1.
pub open spec fn opt_index_from(t: Seq<char>, table: Seq<OptionSpec>, k: int) -> int
    decreases table.len() - k,
{
    if k < 0 || k >= table.len() {
        -1
    } else if names(t, table[k]) {
        k
    } else {
        opt_index_from(t, table, k + 1)
    }
}

/// The index of the option that `t` names, or -1.
pub open spec fn opt_index(t: Seq<char>, table: Seq<OptionSpec>) -> int {
    opt_index_from(t, table, 0)
}

/// Whether a global flag is named by `t`.
pub open spec fn is_global_flag(t: Seq<char>) -> bool {
    t == "-v"@ || t == "--verbose"@ || t == "-n"@ || t == "--no-color"@
}

/// The position of the first argument at or after `from` that does not
/// begin with `-`, or the length.
pub open spec fn first_word(args: Seq<Seq<char>>, from: int) -> int
    decreases args.len() - from,
{
    if from < 0 || from >= args.len() {
        args.len() as int
    } else if !is_dash(args[from]) {
        from
    } else {
        first_word(args, from + 1)
    }
}

/// The position of the first argument before `sub` that is no global flag,
/// or `sub`.
pub open spec fn first_stray(args: Seq<Seq<char>>, from: int, sub: int) -> int
    decreases sub - from,
{
    if from < 0 || from >= sub {
        sub
    } else if !is_global_flag(args[from]) {
        from
    } else {
        first_stray(args, from + 1, sub)
    }
}

pub open spec fn is_digit(c: char) -> bool {
    '0' <= c && c <= '9'
}

/// The value of a string of decimal digits.
pub open spec fn digits_value(t: Seq<char>) -> int
    decreases t.len(),
{
    if t.len() == 0 {
        0
    } else {
        digits_value(t.drop_last()) * 10 + (t.last() as int - '0' as int)
    }
}

/// The number that `t` writes, when it is a decimal that fits in `usize`.
pub open spec fn decimal(t: Seq<char>) -> Option<usize> {
    if t.len() > 0 && (forall|i: int| 0 <= i < t.len() ==> is_digit(#[trigger] t[i])) && digits_value(t)
        <= usize::MAX {
        Some(digits_value(t) as usize)
    } else {
        None
    }
}

/// Whether the argument at `i`, after the subcommand at `sub`, is the value
/// of the option before it.
pub open spec fn is_value_at(args: Seq<Seq<char>>, sub: int, table: Seq<OptionSpec>, i: int) -> bool {
    i > sub + 1 && !is_dash(args[i]) && opt_index(args[i - 1], table) >= 0 && table[opt_index(
        args[i - 1],
        table,
    )].kind != OptionKind::Flag
}

/// Whether the argument at `i`, after the subcommand, stands for itself.
pub open spec fn is_word_at(args: Seq<Seq<char>>, sub: int, table: Seq<OptionSpec>, i: int) -> bool {
    i > sub && !is_dash(args[i]) && !is_value_at(args, sub, table, i)
}

/// The position of the first argument at or after `from` that stands for
/// itself, or the length.
pub open spec fn first_word_after(args: Seq<Seq<char>>, sub: int, table: Seq<OptionSpec>, from: int) -> int
    decreases args.len() - from,
{
    if from < 0 || from >= args.len() {
        args.len() as int
    } else if is_word_at(args, sub, table, from) {
        from
    } else {
        first_word_after(args, sub, table, from + 1)
    }
}

/// What is wrong with the argument at `i`, after the subcommand `c` at `sub`.
pub open spec fn arg_error(args: Seq<Seq<char>>, sub: int, c: CommandKind, i: int) -> Option<(CliErrorKind, Seq<char>)> {
    let table = table_of(c);
    let t = args[i];
    if is_dash(t) {
        let k = opt_index(t, table);
        if k < 0 {
            Some((CliErrorKind::UnknownArgument, t))
        } else if table[k].kind != OptionKind::Flag && (i + 1 >= args.len() || is_dash(args[i + 1])) {
            Some((CliErrorKind::MissingValue, t))
        } else {
            None
        }
    } else if is_value_at(args, sub, table, i) {
        if table[opt_index(args[i - 1], table)].kind == OptionKind::Number && decimal(t) is None {
            Some((CliErrorKind::InvalidNumber, t))
        } else {
            None
        }
    } else if c == CommandKind::Search && i == first_word_after(args, sub, table, sub + 1) {
        None
    } else {
        Some((CliErrorKind::UnexpectedArgument, t))
    }
}

/// The first fault among the arguments from `i` on, after the subcommand.
pub open spec fn first_arg_error(args: Seq<Seq<char>>, sub: int, c: CommandKind, i: int) -> Option<(CliErrorKind, Seq<char>)>
    decreases args.len() - i,
{
    if i < 0 || i >= args.len() {
        None
    } else {
        match arg_error(args, sub, c, i) {
            Some(e) => Some(e),
            None => first_arg_error(args, sub, c, i + 1),
        }
    }
}

/// The text of the last occurrence of option `k` before position `upto`:
/// the option itself for a flag, else its value.
pub open spec fn last_value(args: Seq<Seq<char>>, table: Seq<OptionSpec>, upto: int, k: int) -> Option<Seq<char>>
    decreases upto,
{
    if upto <= 0 {
        None
    } else if is_dash(args[upto - 1]) && opt_index(args[upto - 1], table) == k {
        Some(
            if table[k].kind == OptionKind::Flag {
                args[upto - 1]
            } else {
                args[upto]
            },
        )
    } else {
        last_value(args, table, upto - 1, k)
    }
}

/// The value of option `k` of subcommand `c` on the whole command line.
pub open spec fn value_of(args: Seq<Seq<char>>, c: CommandKind, k: int) -> Option<Seq<char>> {
    last_value(args, table_of(c), args.len() as int, k)
}

/// What a required argument lacks, once the arguments themselves are sound.
pub open spec fn missing_required(args: Seq<Seq<char>>, sub: int, c: CommandKind) -> Option<(CliErrorKind, Seq<char>)> {
    if c == CommandKind::Search && first_word_after(args, sub, table_of(c), sub + 1) >= args.len() {
        Some((CliErrorKind::MissingArgument, "query"@))
    } else if c == CommandKind::GenerateTags && value_of(args, c, 2) is None {
        Some((CliErrorKind::MissingArgument, "--project-dir"@))
    } else {
        None
    }
}

/// Why the command line is refused, if it is: the first fault from left to
/// right, then a missing required argument.
pub open spec fn cli_error(args: Seq<Seq<char>>) -> Option<(CliErrorKind, Seq<char>)> {
    let sub = first_word(args, 0);
    let stray = first_stray(args, 0, sub);
    if stray < sub {
        Some((CliErrorKind::UnknownArgument, args[stray]))
    } else if sub >= args.len() {
        Some((CliErrorKind::MissingSubcommand, Seq::empty()))
    } else {
        match command_named(args[sub]) {
            None => Some((CliErrorKind::UnknownSubcommand, args[sub])),
            Some(c) => match first_arg_error(args, sub, c, sub + 1) {
                Some(e) => Some(e),
                None => missing_required(args, sub, c),
            },
        }
    }
}

/// Whether some argument is `-s` or `--long`.
pub open spec fn has_flag(args: Seq<Seq<char>>, short: Seq<char>, long: Seq<char>) -> bool {
    exists|i: int| 0 <= i < args.len() && (args[i] == short || args[i] == long)
}

/// A text setting: its value when given, else the default.
pub open spec fn text_or(v: Option<Seq<char>>, default: Seq<char>) -> Seq<char> {
    match v {
        Some(t) => t,
        None => default,
    }
}

/// A number setting: its value when given, else the default.
pub open spec fn number_or(v: Option<Seq<char>>, default: usize) -> usize {
    match v {
        Some(t) => decimal(t)->0,
        None => default,
    }
}

/// Whether `cli` is what a sound command line asks for.
pub open spec fn cli_of(args: Seq<Seq<char>>, cli: Cli) -> bool {
    let sub = first_word(args, 0);
    let c = command_named(args[sub])->0;
    &&& cli.verbose == has_flag(args, "-v"@, "--verbose"@)
    &&& cli.no_color == has_flag(args, "-n"@, "--no-color"@)
    &&& match cli.command {
        Commands::Index { projects_dir, output, ollama, max_depth, min_depth, exclude } => {
            &&& c == CommandKind::Index
            &&& projects_dir@ == text_or(value_of(args, c, 2), "~/projects"@)
            &&& output@ == text_or(value_of(args, c, 3), "projects_index.json"@)
            &&& ollama
            &&& max_depth == number_or(value_of(args, c, 5), 3)
            &&& min_depth == number_or(value_of(args, c, 6), 3)
            &&& exclude@ == text_or(
                value_of(args, c, 7),
                ".git,node_modules,__pycache__,target,.idea,.vscode"@,
            )
        },
        Commands::Search { query, index_file, tags_only, category_only } => {
            &&& c == CommandKind::Search
            &&& query@ == args[first_word_after(args, sub, table_of(c), sub + 1)]
            &&& index_file@ == text_or(value_of(args, c, 2), "projects_index.json"@)
            &&& tags_only == value_of(args, c, 3) is Some
            &&& category_only == value_of(args, c, 4) is Some
        },
        Commands::Stats { index_file, detailed } => {
            &&& c == CommandKind::Stats
            &&& index_file@ == text_or(value_of(args, c, 2), "projects_index.json"@)
            &&& detailed == value_of(args, c, 3) is Some
        },
        Commands::GenerateTags { project_dir, output } => {
            &&& c == CommandKind::GenerateTags
            &&& project_dir@ == value_of(args, c, 2)->0
            &&& match output {
                Some(o) => value_of(args, c, 3) == Some(o@),
                None => value_of(args, c, 3) is None,
            }
        },
    }
}

/// The options of a subcommand; the two global flags come first.
pub fn options_of(c: CommandKind) -> (r: Vec<OptionSpec>)
    ensures
        r@ == table_of(c),
{
    let mut t: Vec<OptionSpec> = Vec::new();
    t.push(OptionSpec { short: 'v', long: "verbose", kind: OptionKind::Flag });
    t.push(OptionSpec { short: 'n', long: "no-color", kind: OptionKind::Flag });
    match c {
        CommandKind::Index => {
            t.push(OptionSpec { short: 'd', long: "projects-dir", kind: OptionKind::Text });
            t.push(OptionSpec { short: 'o', long: "output", kind: OptionKind::Text });
            t.push(OptionSpec { short: 'a', long: "ollama", kind: OptionKind::Flag });
            t.push(OptionSpec { short: 'x', long: "max-depth", kind: OptionKind::Number });
            t.push(OptionSpec { short: 'm', long: "min-depth", kind: OptionKind::Number });
            t.push(OptionSpec { short: 'e', long: "exclude", kind: OptionKind::Text });
        },
        CommandKind::Search => {
            t.push(OptionSpec { short: 'i', long: "index-file", kind: OptionKind::Text });
            t.push(OptionSpec { short: 't', long: "tags-only", kind: OptionKind::Flag });
            t.push(OptionSpec { short: 'c', long: "category-only", kind: OptionKind::Flag });
        },
        CommandKind::Stats => {
            t.push(OptionSpec { short: 'i', long: "index-file", kind: OptionKind::Text });
            t.push(OptionSpec { short: 'd', long: "detailed", kind: OptionKind::Flag });
        },
        CommandKind::GenerateTags => {
            t.push(OptionSpec { short: 'p', long: "project-dir", kind: OptionKind::Text });
            t.push(OptionSpec { short: 'o', long: "output", kind: OptionKind::Text });
        },
    }
    assert(t@ =~= table_of(c));
    t
}

/// The subcommand that a word names.
pub fn command_of(t: &str) -> (r: Option<CommandKind>)
    ensures
        r == command_named(t@),
{
    if text_eq(t, "index") {
        Some(CommandKind::Index)
    } else if text_eq(t, "search") {
        Some(CommandKind::Search)
    } else if text_eq(t, "stats") {
        Some(CommandKind::Stats)
    } else if text_eq(t, "generate-tags") {
        Some(CommandKind::GenerateTags)
    } else {
        None
    }
}

fn starts_with_dash(t: &str) -> (r: bool)
    ensures
        r == is_dash(t@),
{
    t.unicode_len() > 0 && t.get_char(0) == '-'
}

/// Whether `t` is `-s` or `--long` for the option.
fn names_option(t: &str, o: &OptionSpec) -> (r: bool)
    ensures
        r == names(t@, *o),
{
    let n = t.unicode_len();
    let short = n == 2 && t.get_char(0) == '-' && t.get_char(1) == o.short;
    proof {
        if short {
            assert(t@ =~= seq!['-', o.short]);
        }
        if t@ == seq!['-', o.short] {
            assert(t@.len() == 2 && t@[0] == '-' && t@[1] == o.short);
        }
    }
    if short {
        return true;
    }
    if n < 2 || t.get_char(0) != '-' || t.get_char(1) != '-' {
        proof {
            if t@ == seq!['-', '-'] + o.long@ {
                assert(t@[0] == '-' && t@[1] == '-');
            }
        }
        return false;
    }
    let rest = t.substring_char(2, n);
    let same = text_eq(rest, o.long);
    proof {
        if same {
            assert(t@ =~= seq!['-', '-'] + o.long@);
        }
        if t@ == seq!['-', '-'] + o.long@ {
            assert(rest@ =~= o.long@);
        }
    }
    same
}

/// The index of the option that `t` names.
fn find_option(t: &str, table: &Vec<OptionSpec>) -> (r: Option<usize>)
    ensures
        r matches Some(k) ==> k as int == opt_index(t@, table@) && k < table@.len(),
        r is None ==> opt_index(t@, table@) == -1,
{
    let mut k: usize = 0;
    while k < table.len()
        invariant
            k <= table@.len(),
            opt_index(t@, table@) == opt_index_from(t@, table@, k as int),
        decreases table.len() - k,
    {
        if names_option(t, &table[k]) {
            return Some(k);
        }
        k = k + 1;
    }
    None
}

pub proof fn lemma_digits_value_grows(t: Seq<char>, i: int)
    requires
        0 <= i <= t.len(),
        forall|j: int| 0 <= j < t.len() ==> is_digit(#[trigger] t[j]),
    ensures
        0 <= digits_value(t.subrange(0, i)) <= digits_value(t),
    decreases t.len(),
{
    if t.len() > 0 {
        let init = t.drop_last();
        if i < t.len() {
            assert(init.subrange(0, i) =~= t.subrange(0, i));
            lemma_digits_value_grows(init, i);
        } else {
            assert(t.subrange(0, i) =~= t);
            lemma_digits_value_grows(init, 0);
            assert(init.subrange(0, 0) =~= Seq::<char>::empty());
        }
    } else {
        assert(t.subrange(0, i) =~= t);
    }
}

/// The number that `t` writes, when it is a decimal that fits in `usize`.
pub fn parse_decimal(t: &str) -> (r: Option<usize>)
    ensures
        r == decimal(t@),
{
    let n = t.unicode_len();
    if n == 0 {
        return None;
    }
    let mut i: usize = 0;
    while i < n
        invariant
            n == t@.len(),
            i <= n,
            forall|j: int| 0 <= j < i ==> is_digit(#[trigger] t@[j]),
        decreases n - i,
    {
        if !('0' <= t.get_char(i) && t.get_char(i) <= '9') {
            return None;
        }
        i = i + 1;
    }
    let mut v: usize = 0;
    let mut i: usize = 0;
    assert(t@.subrange(0, 0) =~= Seq::<char>::empty());
    while i < n
        invariant
            n == t@.len(),
            i <= n,
            forall|j: int| 0 <= j < n ==> is_digit(#[trigger] t@[j]),
            v as int == digits_value(t@.subrange(0, i as int)),
        decreases n - i,
    {
        let c = t.get_char(i);
        let d = (c as u32 - '0' as u32) as usize;
        assert(t@.subrange(0, i + 1).drop_last() =~= t@.subrange(0, i as int));
        proof {
            lemma_digits_value_grows(t@, i + 1);
        }
        match v.checked_mul(10) {
            None => {
                assert(digits_value(t@.subrange(0, i + 1)) >= v * 10);
                return None;
            },
            Some(w) => match w.checked_add(d) {
                None => {
                    return None;
                },
                Some(u) => {
                    v = u;
                },
            },
        }
        i = i + 1;
    }
    assert(t@.subrange(0, n as int) =~= t@);
    Some(v)
}

/// Whether some argument is `short` or `long`.
fn flag_given(args: &Vec<String>, short: &str, long: &str) -> (r: bool)
    ensures
        r == has_flag(args@.map_values(|a: String| a@), short@, long@),
{
    let ghost av = args@.map_values(|a: String| a@);
    let mut i: usize = 0;
    while i < args.len()
        invariant
            i <= args@.len(),
            av == args@.map_values(|a: String| a@),
            forall|j: int| 0 <= j < i ==> !(av[j] == short@ || av[j] == long@),
        decreases args.len() - i,
    {
        if text_eq(args[i].as_str(), short) || text_eq(args[i].as_str(), long) {
            assert(av[i as int] == args@[i as int]@);
            return true;
        }
        i = i + 1;
    }
    false
}

/// The texts of the arguments.
pub open spec fn argv(args: Seq<String>) -> Seq<Seq<char>> {
    args.map_values(|a: String| a@)
}

/// A word never names an option.
pub proof fn lemma_word_names_no_option(t: Seq<char>, table: Seq<OptionSpec>, k: int)
    requires
        !is_dash(t),
    ensures
        opt_index_from(t, table, k) == -1,
    decreases table.len() - k,
{
    if 0 <= k < table.len() {
        if names(t, table[k]) {
            if t == seq!['-', table[k].short] {
                assert(t[0] == '-');
            } else {
                assert(t[0] == (seq!['-', '-'] + table[k].long@)[0]);
            }
        }
        lemma_word_names_no_option(t, table, k + 1);
    }
}

/// A global flag names one of the first two options of every subcommand.
pub proof fn lemma_global_flag_index(t: Seq<char>, c: CommandKind)
    requires
        is_global_flag(t),
    ensures
        0 <= opt_index(t, table_of(c)) < 2,
{
    reveal_strlit("-v");
    reveal_strlit("--verbose");
    reveal_strlit("verbose");
    reveal_strlit("-n");
    reveal_strlit("--no-color");
    reveal_strlit("no-color");
    let table = table_of(c);
    assert(table[0] == opt('v', "verbose", OptionKind::Flag));
    assert(table[1] == opt('n', "no-color", OptionKind::Flag));
    let long_v = seq!['-', '-'] + "verbose"@;
    let long_n = seq!['-', '-'] + "no-color"@;
    assert(long_v.len() == 9 && long_n.len() == 10);
    if t == "-v"@ || t == "--verbose"@ {
        if t == "-v"@ {
            assert(t =~= seq!['-', 'v']);
        } else {
            assert(t =~= long_v);
        }
        assert(names(t, table[0]));
        assert(opt_index(t, table) == 0);
    } else {
        if t == "-n"@ {
            assert(t =~= seq!['-', 'n']);
            assert(t != seq!['-', 'v']);
        } else {
            assert(t =~= long_n);
        }
        assert(!names(t, table[0]));
        assert(names(t, table[1]));
        assert(opt_index_from(t, table, 1) == 1);
        assert(opt_index(t, table) == 1);
    }
}

/// Before the subcommand stand global flags only, so no option of the
/// subcommand's own occurs there.
proof fn lemma_no_options_before(args: Seq<Seq<char>>, sub: int, c: CommandKind, upto: int, k: int)
    requires
        0 <= sub < args.len(),
        0 <= upto <= sub + 1,
        2 <= k,
        forall|j: int| 0 <= j < sub ==> is_global_flag(#[trigger] args[j]),
        !is_dash(args[sub]),
    ensures
        last_value(args, table_of(c), upto, k) is None,
    decreases upto,
{
    if upto > 0 {
        let j = upto - 1;
        if j < sub {
            lemma_global_flag_index(args[j], c);
        }
        lemma_no_options_before(args, sub, c, upto - 1, k);
    }
}

fn refuse(kind: CliErrorKind, argument: &String) -> (r: CliError)
    ensures
        r.kind == kind,
        r.argument@ == argument@,
{
    CliError { kind, argument: argument.clone() }
}

fn is_global(t: &str) -> (r: bool)
    ensures
        r == is_global_flag(t@),
{
    text_eq(t, "-v") || text_eq(t, "--verbose") || text_eq(t, "-n") || text_eq(t, "--no-color")
}

/// Reads the arguments that follow the program's name.
pub fn parse_args(args: &Vec<String>) -> (r: Result<Cli, CliError>)
    ensures
        r is Err <==> cli_error(argv(args@)) is Some,
        r matches Err(e) ==> cli_error(argv(args@)) == Some((e.kind, e.argument@)),
        r matches Ok(cli) ==> cli_of(argv(args@), cli),
{
    let ghost av = argv(args@);
    let n = args.len();
    let mut sub: usize = 0;
    while sub < n && starts_with_dash(args[sub].as_str())
        invariant
            n == args@.len(),
            av == argv(args@),
            av.len() == n,
            sub <= n,
            first_word(av, 0) == first_word(av, sub as int),
            forall|j: int| 0 <= j < sub ==> is_dash(#[trigger] av[j]),
        decreases n - sub,
    {
        assert(av[sub as int] == args@[sub as int]@);
        sub = sub + 1;
    }
    proof {
        if sub < n {
            assert(av[sub as int] == args@[sub as int]@);
        }
    }
    let mut i: usize = 0;
    while i < sub
        invariant
            n == args@.len(),
            av == argv(args@),
            av.len() == n,
            i <= sub <= n,
            first_word(av, 0) == sub,
            first_stray(av, 0, sub as int) == first_stray(av, i as int, sub as int),
            forall|j: int| 0 <= j < i ==> is_global_flag(#[trigger] av[j]),
        decreases sub - i,
    {
        assert(av[i as int] == args@[i as int]@);
        if !is_global(args[i].as_str()) {
            return Err(refuse(CliErrorKind::UnknownArgument, &args[i]));
        }
        i = i + 1;
    }
    if sub == n {
        return Err(CliError { kind: CliErrorKind::MissingSubcommand, argument: String::new() });
    }
    assert(av[sub as int] == args@[sub as int]@);
    let c = match command_of(args[sub].as_str()) {
        None => {
            return Err(refuse(CliErrorKind::UnknownSubcommand, &args[sub]));
        },
        Some(c) => c,
    };
    let table = options_of(c);
    let ghost tb = table_of(c);
    let mut values: Vec<Option<String>> = Vec::new();
    while values.len() < table.len()
        invariant
            values@.len() <= table@.len(),
            forall|k: int| 0 <= k < values@.len() ==> #[trigger] values@[k] is None,
        decreases table.len() - values.len(),
    {
        values.push(None);
    }
    let mut word: Option<String> = None;
    let mut i: usize = sub + 1;
    proof {
        assert forall|k: int| 2 <= k < tb.len() implies last_value(av, tb, i as int, k) is None by {
            lemma_no_options_before(av, sub as int, c, i as int, k);
        }
    }
    while i < n
        invariant
            n == args@.len(),
            av == argv(args@),
            av.len() == n,
            sub < i <= n,
            first_word(av, 0) == sub,
            first_stray(av, 0, sub as int) == sub,
            !is_dash(av[sub as int]),
            command_named(av[sub as int]) == Some(c),
            table@ == tb,
            tb == table_of(c),
            values@.len() == tb.len(),
            first_arg_error(av, sub as int, c, sub + 1) == first_arg_error(av, sub as int, c, i as int),
            i < n ==> !is_value_at(av, sub as int, tb, i as int),
            word is None ==> first_word_after(av, sub as int, tb, sub + 1) == first_word_after(
                av,
                sub as int,
                tb,
                i as int,
            ),
            word matches Some(w) ==> c == CommandKind::Search && first_word_after(
                av,
                sub as int,
                tb,
                sub + 1,
            ) < i && w@ == av[first_word_after(av, sub as int, tb, sub + 1)],
            forall|k: int|
                2 <= k < tb.len() ==> (#[trigger] values@[k] matches Some(v) ==> last_value(
                    av,
                    tb,
                    i as int,
                    k,
                ) == Some(v@)) && (values@[k] is None ==> last_value(av, tb, i as int, k) is None),
            forall|k: int|
                2 <= k < tb.len() && tb[k].kind == OptionKind::Number ==> (#[trigger] values@[k] matches Some(v)
                    ==> decimal(v@) is Some),
        decreases n - i,
    {
        assert(av[i as int] == args@[i as int]@);
        if starts_with_dash(args[i].as_str()) {
            match find_option(args[i].as_str(), &table) {
                None => {
                    assert(arg_error(av, sub as int, c, i as int) == Some(
                        (CliErrorKind::UnknownArgument, av[i as int]),
                    ));
                    return Err(refuse(CliErrorKind::UnknownArgument, &args[i]));
                },
                Some(k) => {
                    if table[k].kind == OptionKind::Flag {
                        let ghost before = values@;
                        values.set(k, Some(args[i].clone()));
                        proof {
                            assert forall|q: int| 2 <= q < tb.len() implies (#[trigger] values@[q] matches Some(v)
                                ==> last_value(av, tb, i + 1, q) == Some(v@)) && (values@[q] is None
                                ==> last_value(av, tb, i + 1, q) is None) by {
                                if q != k {
                                    assert(values@[q] == before[q]);
                                }
                            }
                        }
                        i = i + 1;
                    } else {
                        proof {
                            if i + 1 < n {
                                assert(av[i + 1] == args@[i + 1]@);
                            }
                        }
                        if i + 1 >= n || starts_with_dash(args[i + 1].as_str()) {
                            assert(arg_error(av, sub as int, c, i as int) == Some(
                                (CliErrorKind::MissingValue, av[i as int]),
                            ));
                            return Err(refuse(CliErrorKind::MissingValue, &args[i]));
                        }
                        assert(arg_error(av, sub as int, c, i as int) is None);
                        assert(is_value_at(av, sub as int, tb, i + 1));
                        assert(!is_word_at(av, sub as int, tb, i as int));
                        assert(!is_word_at(av, sub as int, tb, i + 1));
                        assert(first_arg_error(av, sub as int, c, i as int) == first_arg_error(
                            av,
                            sub as int,
                            c,
                            i + 1,
                        ));
                        assert(first_word_after(av, sub as int, tb, i as int) == first_word_after(
                            av,
                            sub as int,
                            tb,
                            i + 1,
                        ));
                        assert(first_word_after(av, sub as int, tb, i + 1) == first_word_after(
                            av,
                            sub as int,
                            tb,
                            i + 2,
                        ));
                        if table[k].kind == OptionKind::Number && parse_decimal(
                            args[i + 1].as_str(),
                        ).is_none() {
                            assert(arg_error(av, sub as int, c, i + 1) == Some(
                                (CliErrorKind::InvalidNumber, av[i + 1]),
                            ));
                            return Err(refuse(CliErrorKind::InvalidNumber, &args[i + 1]));
                        }
                        assert(arg_error(av, sub as int, c, i + 1) is None);
                        assert(first_arg_error(av, sub as int, c, i + 1) == first_arg_error(
                            av,
                            sub as int,
                            c,
                            i + 2,
                        ));
                        let ghost before = values@;
                        values.set(k, Some(args[i + 1].clone()));
                        proof {
                            lemma_word_names_no_option(av[i + 1], tb, 0);
                            assert forall|q: int| 2 <= q < tb.len() implies (#[trigger] values@[q] matches Some(v)
                                ==> last_value(av, tb, i + 2, q) == Some(v@)) && (values@[q] is None
                                ==> last_value(av, tb, i + 2, q) is None) by {
                                assert(last_value(av, tb, i + 2, q) == last_value(av, tb, i + 1, q));
                                if q != k {
                                    assert(values@[q] == before[q]);
                                }
                            }
                            if i + 2 < n {
                                assert(!is_value_at(av, sub as int, tb, i + 2));
                            }
                        }
                        i = i + 2;
                    }
                },
            }
        } else {
            proof {
                lemma_word_names_no_option(av[i as int], tb, 0);
            }
            assert(is_word_at(av, sub as int, tb, i as int));
            if c == CommandKind::Search && word.is_none() {
                assert(arg_error(av, sub as int, c, i as int) is None);
                word = Some(args[i].clone());
            } else {
                assert(arg_error(av, sub as int, c, i as int) == Some(
                    (CliErrorKind::UnexpectedArgument, av[i as int]),
                ));
                return Err(refuse(CliErrorKind::UnexpectedArgument, &args[i]));
            }
            i = i + 1;
        }
    }
    if c == CommandKind::Search && word.is_none() {
        return Err(CliError { kind: CliErrorKind::MissingArgument, argument: String::from_str("query") });
    }
    if c == CommandKind::GenerateTags && values[2].is_none() {
        return Err(
            CliError { kind: CliErrorKind::MissingArgument, argument: String::from_str("--project-dir") },
        );
    }
    let verbose = flag_given(args, "-v", "--verbose");
    let no_color = flag_given(args, "-n", "--no-color");
    let command = match c {
        CommandKind::Index => Commands::Index {
            projects_dir: text_setting(&values[2], "~/projects"),
            output: text_setting(&values[3], "projects_index.json"),
            ollama: true,
            max_depth: number_setting(&values[5], 3),
            min_depth: number_setting(&values[6], 3),
            exclude: text_setting(&values[7], ".git,node_modules,__pycache__,target,.idea,.vscode"),
        },
        CommandKind::Search => Commands::Search {
            query: match &word {
                Some(w) => w.clone(),
                None => String::new(),
            },
            index_file: text_setting(&values[2], "projects_index.json"),
            tags_only: values[3].is_some(),
            category_only: values[4].is_some(),
        },
        CommandKind::Stats => Commands::Stats {
            index_file: text_setting(&values[2], "projects_index.json"),
            detailed: values[3].is_some(),
        },
        CommandKind::GenerateTags => Commands::GenerateTags {
            project_dir: text_setting(&values[2], ""),
            output: match &values[3] {
                Some(o) => Some(o.clone()),
                None => None,
            },
        },
    };
    Ok(Cli { command, verbose, no_color })
}

/// A text setting: its value when given, else the default.
fn text_setting(v: &Option<String>, default: &str) -> (r: String)
    ensures
        r@ == text_or(
            match v {
                Some(s) => Some(s@),
                None => None,
            },
            default@,
        ),
{
    match v {
        Some(s) => s.clone(),
        None => String::from_str(default),
    }
}

/// A number setting: its value when given, else the default.
fn number_setting(v: &Option<String>, default: usize) -> (r: usize)
    requires
        v matches Some(s) ==> decimal(s@) is Some,
    ensures
        r == number_or(
            match v {
                Some(s) => Some(s@),
                None => None,
            },
            default,
        ),
{
    match v {
        Some(s) => match parse_decimal(s.as_str()) {
            Some(x) => x,
            None => default,
        },
        None => default,
    }
}

} // verus!
