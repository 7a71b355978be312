//! Splitting a script into top-level statements, and the control flow of the
//! script runner and of the interactive read-eval-print loop.

use vstd::prelude::*;
use brush_parser::ast::SourceLocation;
use crate::context::{digits_value, is_digit};
use crate::text::{
    extend_chars, join, lines, str_views, split_lines, string_from_range, string_views, to_chars, trim,
    trim_end_char, trim_end_char_len, trim_range,
};

verus! {

// ---------------------------------------------------------------------------
// Statement splitting
// ---------------------------------------------------------------------------

/// The parser options that influence how a script is split.
pub struct ParseOptions {
    pub enable_extended_globbing: bool,
    pub posix_mode: bool,
    pub sh_mode: bool,
    pub tilde_expansion: bool,
}

impl ParseOptions {
    /// The parser's defaults: extended globbing and tilde expansion on,
    /// POSIX and `sh` modes off.
    pub fn new() -> (o: ParseOptions)
        ensures
            o.enable_extended_globbing,
            !o.posix_mode,
            !o.sh_mode,
            o.tilde_expansion,
    {
        ParseOptions {
            enable_extended_globbing: true,
            posix_mode: false,
            sh_mode: false,
            tilde_expansion: true,
        }
    }
}

/// One top-level command as the parser reports it: the 1-based lines of its
/// first and last token (when the parser knows them), and its rendering.
pub struct ParsedStatement {
    pub lines: Option<(usize, usize)>,
    pub display: String,
}

/// The mathematical content of a parsed statement.
pub type ParsedView = (Option<(usize, usize)>, Seq<char>);

impl View for ParsedStatement {
    type V = ParsedView;

    open spec fn view(&self) -> ParsedView {
        (self.lines, self.display@)
    }
}

/// The views of a sequence of parsed statements.
pub open spec fn parsed_views(s: Seq<ParsedStatement>) -> Seq<ParsedView> {
    s.map_values(|p: ParsedStatement| p@)
}

/// The top-level commands that the shell parser finds in `source` under the
/// given options, or `None` when the source does not parse.
pub uninterp spec fn parsed_commands(
    source: Seq<char>,
    enable_extended_globbing: bool,
    posix_mode: bool,
    sh_mode: bool,
    tilde_expansion: bool,
) -> Option<Seq<ParsedView>>;

/// A token of the shell tokenizer: a word or an operator, its text, and the
/// character indices where it starts and ends (exclusive).
pub struct ShellToken {
    pub is_word: bool,
    pub text: String,
    pub start: usize,
    pub end: usize,
}

/// The mathematical content of a token.
pub type TokenView = (bool, Seq<char>, usize, usize);

impl View for ShellToken {
    type V = TokenView;

    open spec fn view(&self) -> TokenView {
        (self.is_word, self.text@, self.start, self.end)
    }
}

/// The views of a sequence of tokens.
pub open spec fn token_views(s: Seq<ShellToken>) -> Seq<TokenView> {
    s.map_values(|t: ShellToken| t@)
}

/// The tokens that the shell tokenizer makes of `source` under the
/// tokenizer options implied by the given parser options, or `None` when
/// tokenizing fails.
pub uninterp spec fn source_tokens(
    source: Seq<char>,
    enable_extended_globbing: bool,
    posix_mode: bool,
    sh_mode: bool,
) -> Option<Seq<TokenView>>;

/// Tokenizes `source` with `brush_parser::uncached_tokenize_str`, the
/// tokenizer that `Parser::parse_program` runs first, under the same
/// options, and reports each token's kind, text and character span. The
/// contract claims only that the result is a function of the source and
/// options.
#[verifier::external_body]
fn tokenize(source: &str, options: &ParseOptions) -> (r: Option<Vec<ShellToken>>)
    ensures
        match r {
            Some(v) => source_tokens(
                source@,
                options.enable_extended_globbing,
                options.posix_mode,
                options.sh_mode,
            ) == Some(token_views(v@)),
            None => source_tokens(
                source@,
                options.enable_extended_globbing,
                options.posix_mode,
                options.sh_mode,
            ) is None,
        },
{
    let opts = brush_parser::ParserOptions {
        enable_extended_globbing: options.enable_extended_globbing,
        posix_mode: options.posix_mode,
        sh_mode: options.sh_mode,
        tilde_expansion: options.tilde_expansion,
    };
    let tokens = brush_parser::uncached_tokenize_str(source, &opts.tokenizer_options()).ok()?;
    Some(tokens.iter().map(|t| match t {
        brush_parser::Token::Word(w, l) => ShellToken { is_word: true, text: w.clone(), start: l.start.index, end: l.end.index },
        brush_parser::Token::Operator(o, l) => ShellToken { is_word: false, text: o.clone(), start: l.start.index, end: l.end.index },
    }).collect())
}

/// The largest file-descriptor number the parser accepts (`i32::MAX`).
pub open spec fn max_io_number() -> nat {
    2147483647
}

/// Every character of `w` is an ASCII digit.
pub open spec fn all_digits(w: Seq<char>) -> bool {
    forall|k: int| 0 <= k < w.len() ==> is_digit(#[trigger] w[k])
}

/// Token `i` is what the parser reads as a redirection's file-descriptor
/// number: a word of digits only, directly followed (no gap) by an operator
/// that starts with `<` or `>`.
pub open spec fn is_io_number(ts: Seq<TokenView>, i: int) -> bool {
    &&& 0 <= i && i + 1 < ts.len()
    &&& ts[i].0
    &&& all_digits(ts[i].1)
    &&& !ts[i + 1].0
    &&& ts[i + 1].1.len() > 0
    &&& (ts[i + 1].1[0] == '<' || ts[i + 1].1[0] == '>')
    &&& ts[i].3 == ts[i + 1].2
}

/// Every file-descriptor number among the tokens is a valid `i32`: not
/// empty and at most `i32::MAX`. The parser panics on one that is not.
pub open spec fn io_numbers_fit(ts: Seq<TokenView>) -> bool {
    forall|i: int|
        #![trigger is_io_number(ts, i)]
        is_io_number(ts, i) ==> ts[i].1.len() > 0 && digits_value(ts[i].1) <= max_io_number()
}

/// The tokens of `source`, if it tokenizes, have only file-descriptor
/// numbers the parser can read.
pub open spec fn source_io_numbers_fit(source: Seq<char>, o: (bool, bool, bool)) -> bool {
    match source_tokens(source, o.0, o.1, o.2) {
        Some(ts) => io_numbers_fit(ts),
        None => true,
    }
}

/// Whether a word of digits is a valid `i32` file descriptor.
fn fd_number_fits(w: &Vec<char>) -> (r: bool)
    requires
        all_digits(w@),
    ensures
        r == (w@.len() > 0 && digits_value(w@) <= max_io_number()),
{
    if w.len() == 0 {
        return false;
    }
    let n = w.len();
    let mut value: u64 = 0;
    let mut big = false;
    let mut m: usize = 0;
    while m < n
        invariant
            n == w@.len(),
            m <= n,
            all_digits(w@),
            !big ==> value == digits_value(w@.take(m as int)) && value <= max_io_number(),
            big ==> digits_value(w@.take(m as int)) > max_io_number(),
        decreases n - m,
    {
        let c = w[m];
        assert(is_digit(w@[m as int]));
        let d = (c as u32 - 0x30) as u64;
        assert(w@.take(m + 1).drop_last() =~= w@.take(m as int));
        if !big {
            let next = value * 10 + d;
            if next > 2147483647 {
                big = true;
            } else {
                value = next;
            }
        }
        m = m + 1;
    }
    assert(w@.take(n as int) =~= w@);
    !big
}

/// Whether the word is made of ASCII digits only.
fn digits_only(w: &Vec<char>) -> (r: bool)
    ensures
        r == all_digits(w@),
{
    let mut k: usize = 0;
    while k < w.len()
        invariant
            k <= w@.len(),
            forall|j: int| 0 <= j < k ==> is_digit(#[trigger] w@[j]),
        decreases w@.len() - k,
    {
        let x = w[k] as u32;
        if x < 0x30 || x > 0x39 {
            assert(!is_digit(w@[k as int]));
            return false;
        }
        k = k + 1;
    }
    true
}

/// Whether every file-descriptor number among the tokens is a valid `i32`.
pub fn tokens_io_numbers_fit(tokens: &Vec<ShellToken>) -> (r: bool)
    ensures
        r == io_numbers_fit(token_views(tokens@)),
{
    let ghost ts = token_views(tokens@);
    let mut i: usize = 0;
    while i < tokens.len()
        invariant
            i <= tokens@.len(),
            ts == token_views(tokens@),
            forall|k: int|
                #![trigger is_io_number(ts, k)]
                0 <= k < i && is_io_number(ts, k) ==> ts[k].1.len() > 0 && digits_value(ts[k].1)
                    <= max_io_number(),
        decreases tokens@.len() - i,
    {
        if i + 1 < tokens.len() {
            let t = &tokens[i];
            let next = &tokens[i + 1];
            let w = to_chars(t.text.as_str());
            let o = to_chars(next.text.as_str());
            assert(ts[i as int] == t@);
            assert(ts[i + 1] == next@);
            if t.is_word && digits_only(&w) && !next.is_word && o.len() > 0 && (o[0] == '<' || o[0]
                == '>') && t.end == next.start {
                assert(is_io_number(ts, i as int));
                if !fd_number_fits(&w) {
                    return false;
                }
            } else {
                assert(!is_io_number(ts, i as int));
            }
        } else {
            assert(!is_io_number(ts, i as int));
        }
        i = i + 1;
    }
    true
}

/// Whether the parser can read every file-descriptor number in `source`
/// (true as well when `source` does not tokenize: the parser then reports
/// an error rather than reading any).
pub fn io_numbers_fit_in(source: &str, options: &ParseOptions) -> (r: bool)
    ensures
        r == source_io_numbers_fit(
            source@,
            (options.enable_extended_globbing, options.posix_mode, options.sh_mode),
        ),
{
    match tokenize(source, options) {
        Some(tokens) => tokens_io_numbers_fit(&tokens),
        None => true,
    }
}

/// Parses `source` with `brush_parser::Parser::parse_program` and reports,
/// for each complete command of the program, the lines of its location
/// (`SourceLocation::location`) and its `Display` rendering. The contract
/// claims only that the result is a function of the source and options.
/// The parser first runs the tokenizer that `source_tokens` names, and
/// panics when it reads a redirection file-descriptor number that is not a
/// valid `i32`. `requires` leaves out every source whose tokens hold such a
/// number in a redirection's place (`is_io_number`); that also leaves out
/// the few where the grammar never reads it as one, such as a comparison
/// inside `[[ ]]` or `(( ))`.
#[verifier::external_body]
fn parse_program(source: &str, options: &ParseOptions) -> (r: Option<Vec<ParsedStatement>>)
    requires
        source_io_numbers_fit(
            source@,
            (options.enable_extended_globbing, options.posix_mode, options.sh_mode),
        ),
    ensures
        match r {
            Some(v) => parsed_commands(
                source@,
                options.enable_extended_globbing,
                options.posix_mode,
                options.sh_mode,
                options.tilde_expansion,
            ) == Some(parsed_views(v@)),
            None => parsed_commands(
                source@,
                options.enable_extended_globbing,
                options.posix_mode,
                options.sh_mode,
                options.tilde_expansion,
            ) is None,
        },
{
    let opts = brush_parser::ParserOptions {
        enable_extended_globbing: options.enable_extended_globbing,
        posix_mode: options.posix_mode,
        sh_mode: options.sh_mode,
        tilde_expansion: options.tilde_expansion,
    };
    let info = brush_parser::SourceInfo { source: "script".to_owned() };
    let mut parser = brush_parser::Parser::new(std::io::Cursor::new(source), &opts, &info);
    let program = parser.parse_program().ok()?;
    Some(program.complete_commands.iter().map(|c| ParsedStatement {
        lines: c.location().map(|l| (l.start.line, l.end.line)),
        display: format!("{c}"),
    }).collect())
}

/// The text of one statement: the source lines it spans, joined and
/// trimmed; its trimmed rendering when the span is unknown, empty or blank.
pub open spec fn statement_text(src_lines: Seq<Seq<char>>, st: ParsedView) -> Seq<char> {
    match st.0 {
        Some((first, last)) => {
            let start: int = if first > 0 { first - 1 } else { 0 };
            let end: int = if last < src_lines.len() { last as int } else { src_lines.len() as int };
            if start >= end {
                trim(st.1)
            } else {
                let t = trim(join(src_lines.subrange(start, end), "\n"@));
                if t.len() == 0 {
                    trim(st.1)
                } else {
                    t
                }
            }
        },
        None => trim(st.1),
    }
}

/// The non-empty texts among the statements' texts, in order.
pub open spec fn statement_texts_of(src_lines: Seq<Seq<char>>, sts: Seq<ParsedView>) -> Seq<
    Seq<char>,
>
    decreases sts.len(),
{
    if sts.len() == 0 {
        seq![]
    } else {
        let t = statement_text(src_lines, sts.last());
        statement_texts_of(src_lines, sts.drop_last()) + (if t.len() > 0 {
            seq![t]
        } else {
            seq![]
        })
    }
}

/// The statements of `source`: one text per parsed command, or the whole
/// source as a single statement when it does not parse.
pub open spec fn spec_statements(source: Seq<char>, parsed: Option<Seq<ParsedView>>) -> Seq<
    Seq<char>,
> {
    match parsed {
        Some(sts) => statement_texts_of(lines(source), sts),
        None => seq![source],
    }
}

/// The text of every parsed command, in order, empty ones included.
pub open spec fn command_texts(src_lines: Seq<Seq<char>>, sts: Seq<ParsedView>) -> Seq<Seq<char>> {
    sts.map_values(|st: ParsedView| statement_text(src_lines, st))
}

/// The non-empty texts among `ts`, in order.
pub open spec fn non_empty_texts(ts: Seq<Seq<char>>) -> Seq<Seq<char>> {
    ts.filter(|t: Seq<char>| t.len() > 0)
}

proof fn lemma_texts_of_filter(src_lines: Seq<Seq<char>>, sts: Seq<ParsedView>)
    ensures
        statement_texts_of(src_lines, sts) == non_empty_texts(command_texts(src_lines, sts)),
    decreases sts.len(),
{
    reveal(Seq::filter);
    if sts.len() > 0 {
        lemma_texts_of_filter(src_lines, sts.drop_last());
        let all = command_texts(src_lines, sts);
        assert(all.drop_last() =~= command_texts(src_lines, sts.drop_last()));
        assert(all.last() == statement_text(src_lines, sts.last()));
    }
}

/// Splitting keeps one statement per parsed command whose text is not
/// empty, in the parser's order: the statements are exactly the non-empty
/// command texts, so a command repeated on consecutive lines runs (and is
/// recorded) once per occurrence.
pub proof fn lemma_statements_one_per_command(source: Seq<char>, sts: Seq<ParsedView>)
    ensures
        spec_statements(source, Some(sts)) == non_empty_texts(command_texts(lines(source), sts)),
{
    lemma_texts_of_filter(lines(source), sts);
}

/// The text of one parsed statement, taken from the source lines.
fn statement_text_exec(src_lines: &Vec<Vec<char>>, st: &ParsedStatement) -> (r: Vec<char>)
    ensures
        r@ == statement_text(src_lines@.map_values(|l: Vec<char>| l@), st@),
{
    let ghost lv = src_lines@.map_values(|l: Vec<char>| l@);
    let display = to_chars(st.display.as_str());
    let (dlo, dhi) = trim_range(&display, 0, display.len());
    assert(display@.subrange(0, display@.len() as int) =~= display@);
    let mut fallback: Vec<char> = Vec::new();
    let mut k = dlo;
    while k < dhi
        invariant
            dlo <= k <= dhi <= display@.len(),
            fallback@ == display@.subrange(dlo as int, k as int),
        decreases dhi - k,
    {
        fallback.push(display[k]);
        k = k + 1;
        assert(fallback@ =~= display@.subrange(dlo as int, k as int));
    }
    match st.lines {
        None => fallback,
        Some((first, last)) => {
            let start = if first > 0 { first - 1 } else { 0 };
            let end = if last < src_lines.len() { last } else { src_lines.len() };
            if start >= end {
                return fallback;
            }
            let mut joined: Vec<char> = Vec::new();
            let mut i = start;
            while i < end
                invariant
                    start <= i <= end <= src_lines@.len(),
                    lv == src_lines@.map_values(|l: Vec<char>| l@),
                    start < end,
                    i > start ==> joined@ == join(lv.subrange(start as int, i as int), "\n"@),
                    i == start ==> joined@ == Seq::<char>::empty(),
                decreases end - i,
            {
                if i > start {
                    joined.push('\n');
                }
                extend_chars(&mut joined, &src_lines[i]);
                proof {
                    reveal_strlit("\n");
                    let part = lv.subrange(start as int, i + 1);
                    assert(part.drop_last() =~= lv.subrange(start as int, i as int));
                    if i == start {
                        assert(part[0] == src_lines@[i as int]@);
                        assert(joined@ =~= part[0]);
                    } else {
                        assert(joined@ =~= join(part.drop_last(), "\n"@) + "\n"@ + part.last());
                    }
                }
                i = i + 1;
            }
            let (lo, hi) = trim_range(&joined, 0, joined.len());
            assert(joined@.subrange(0, joined@.len() as int) =~= joined@);
            if lo >= hi {
                fallback
            } else {
                let mut t: Vec<char> = Vec::new();
                let mut k = lo;
                while k < hi
                    invariant
                        lo <= k <= hi <= joined@.len(),
                        t@ == joined@.subrange(lo as int, k as int),
                    decreases hi - k,
                {
                    t.push(joined[k]);
                    k = k + 1;
                    assert(t@ =~= joined@.subrange(lo as int, k as int));
                }
                t
            }
        },
    }
}

/// The views of an optional list of parsed statements.
pub open spec fn parsed_opt_view(p: Option<Vec<ParsedStatement>>) -> Option<Seq<ParsedView>> {
    match p {
        Some(v) => Some(parsed_views(v@)),
        None => None,
    }
}

/// The statements of `source`, given what the parser found in it: one text
/// per command, blank ones dropped; the whole source when it did not parse.
pub fn statement_texts(source: &str, parsed: &Option<Vec<ParsedStatement>>) -> (r: Vec<String>)
    ensures
        string_views(r@) == spec_statements(source@, parsed_opt_view(*parsed)),
{
    match parsed {
        None => {
            let mut r: Vec<String> = Vec::new();
            r.push(source.to_owned());
            assert(string_views(r@) =~= seq![source@]);
            r
        },
        Some(sts) => {
            let chars = to_chars(source);
            let src_lines = split_lines(&chars);
            let ghost lv = src_lines@.map_values(|l: Vec<char>| l@);
            assert(lv =~= lines(source@));
            let ghost pv = parsed_views(sts@);
            let mut r: Vec<String> = Vec::new();
            let mut i: usize = 0;
            while i < sts.len()
                invariant
                    i <= sts@.len(),
                    lv == src_lines@.map_values(|l: Vec<char>| l@),
                    lv == lines(source@),
                    pv == parsed_views(sts@),
                    string_views(r@) == statement_texts_of(lv, pv.take(i as int)),
                decreases sts@.len() - i,
            {
                let t = statement_text_exec(&src_lines, &sts[i]);
                let ghost before = string_views(r@);
                if t.len() > 0 {
                    r.push(crate::text::string_from_chars(&t));
                }
                proof {
                    let part = pv.take(i + 1);
                    assert(part.drop_last() =~= pv.take(i as int));
                    assert(part.last() == sts@[i as int]@);
                    if t@.len() > 0 {
                        assert(string_views(r@) =~= before + seq![t@]);
                    } else {
                        assert(string_views(r@) =~= before + Seq::<Seq<char>>::empty());
                    }
                }
                i = i + 1;
            }
            assert(pv.take(sts@.len() as int) =~= pv);
            r
        },
    }
}

/// Splits `source` into its top-level statements with the shell parser.
///
/// Multi-line constructs (`if`/`fi`, loops, function definitions) yield one
/// statement each. When parsing fails the whole source is one statement, so
/// execution still proceeds and the interpreter reports the error; an empty
/// script yields no statement. The parser panics on a redirection
/// file-descriptor number that is not a valid `i32`; `requires` leaves such
/// sources out (`checked_parse_statements` tests for them).
pub fn parse_statements(source: &str, options: &ParseOptions) -> (r: Vec<String>)
    requires
        source_io_numbers_fit(
            source@,
            (options.enable_extended_globbing, options.posix_mode, options.sh_mode),
        ),
    ensures
        string_views(r@) == spec_statements(
            source@,
            parsed_commands(
                source@,
                options.enable_extended_globbing,
                options.posix_mode,
                options.sh_mode,
                options.tilde_expansion,
            ),
        ),
{
    let parsed = parse_program(source, options);
    statement_texts(source, &parsed)
}

/// Splits `source` as `parse_statements` does when the parser can read
/// every file-descriptor number in it, and gives `None` when it cannot.
pub fn checked_parse_statements(source: &str, options: &ParseOptions) -> (r: Option<Vec<String>>)
    ensures
        r is Some <==> source_io_numbers_fit(
            source@,
            (options.enable_extended_globbing, options.posix_mode, options.sh_mode),
        ),
        r matches Some(v) ==> string_views(v@) == spec_statements(
            source@,
            parsed_commands(
                source@,
                options.enable_extended_globbing,
                options.posix_mode,
                options.sh_mode,
                options.tilde_expansion,
            ),
        ),
{
    if io_numbers_fit_in(source, options) {
        Some(parse_statements(source, options))
    } else {
        None
    }
}

// ---------------------------------------------------------------------------
// Shell options
// ---------------------------------------------------------------------------

/// The options a clank shell is created with.
pub struct ShellOptions {
    /// Whether the shell runs in an interactive terminal context.
    pub interactive: bool,
    /// Skip the login profile.
    pub no_profile: bool,
    /// Skip the rc file.
    pub no_rc: bool,
    /// Disable line editing.
    pub no_editing: bool,
    /// The shell's name (`$0`).
    pub shell_name: Option<String>,
    /// The names of clank's own builtins, registered over the interpreter's
    /// bash-mode set.
    pub builtins: Vec<&'static str>,
}

/// The options of a non-interactive clank shell: no profile, no rc file,
/// no line editing, named `clank`.
pub open spec fn is_clank_baseline(o: ShellOptions) -> bool {
    &&& o.no_profile
    &&& o.no_rc
    &&& o.no_editing
    &&& o.shell_name matches Some(n) && n@ == "clank"@
    &&& str_views(o.builtins@) == seq!["context"@, "ask"@]
}

/// The default options for a non-interactive clank shell.
pub fn default_options() -> (o: ShellOptions)
    ensures
        !o.interactive,
        is_clank_baseline(o),
{
    ShellOptions {
        interactive: false,
        no_profile: true,
        no_rc: true,
        no_editing: true,
        shell_name: Some("clank".to_owned()),
        builtins: clank_builtin_names(),
    }
}

/// The options for an interactive session: the defaults, but interactive.
pub fn interactive_options() -> (o: ShellOptions)
    ensures
        o.interactive,
        is_clank_baseline(o),
{
    ShellOptions { interactive: true, ..default_options() }
}

/// The names of the builtins clank registers over the interpreter's own.
pub fn clank_builtin_names() -> (r: Vec<&'static str>)
    ensures
        str_views(r@) == seq!["context"@, "ask"@],
{
    let mut r: Vec<&'static str> = Vec::new();
    r.push("context");
    r.push("ask");
    assert(str_views(r@) =~= seq!["context"@, "ask"@]);
    r
}

// ---------------------------------------------------------------------------
// Run loops
// ---------------------------------------------------------------------------

/// The state of a run over statements or input lines: the exit code of the
/// last statement executed (0 before any) and whether the shell asked to
/// stop (`exit`/`return`).
pub struct RunState {
    pub last_exit_code: u8,
    pub stopped: bool,
}

/// What the interactive loop does with a line it has read.
pub enum LineAction {
    /// End of input: leave the loop.
    Stop,
    /// A blank line: prompt again.
    Skip,
    /// Execute this command.
    Run(String),
}

/// A command line without its line terminator: trailing `'\n'`s, then
/// trailing `'\r'`s removed.
pub open spec fn line_command(line: Seq<char>) -> Seq<char> {
    trim_end_char(trim_end_char(line, '\n'), '\r')
}

/// The effect of one statement's result on the run state.
pub open spec fn after_result(exit_code: u8, is_return_or_exit: bool) -> (u8, bool) {
    (exit_code, is_return_or_exit)
}

impl RunState {
    /// The state before anything ran.
    pub fn new() -> (s: RunState)
        ensures
            s.last_exit_code == 0,
            !s.stopped,
    {
        RunState { last_exit_code: 0, stopped: false }
    }

    /// Records a statement's result: its exit code becomes the run's, and
    /// the run stops when the statement was `exit` or `return`.
    pub fn record_result(&mut self, exit_code: u8, is_return_or_exit: bool)
        ensures
            (final(self).last_exit_code, final(self).stopped) == after_result(
                exit_code,
                is_return_or_exit,
            ),
    {
        self.last_exit_code = exit_code;
        self.stopped = is_return_or_exit;
    }

    /// Decides what to do with a line read by the interactive loop, given
    /// how many bytes were read.
    pub fn on_line(&self, bytes_read: usize, line: &str) -> (a: LineAction)
        ensures
            bytes_read == 0 ==> a is Stop,
            bytes_read > 0 && line_command(line@).len() == 0 ==> a is Skip,
            bytes_read > 0 && line_command(line@).len() > 0 ==> (a matches LineAction::Run(c)
                && c@ == line_command(line@)),
    {
        if bytes_read == 0 {
            return LineAction::Stop;
        }
        let chars = to_chars(line);
        let n = trim_end_char_len(&chars, chars.len(), '\n');
        let m = trim_end_char_len(&chars, n, '\r');
        assert(chars@.subrange(0, chars@.len() as int) =~= chars@);
        if m == 0 {
            LineAction::Skip
        } else {
            LineAction::Run(string_from_range(&chars, 0, m))
        }
    }
}

/// The run state after the results `results` (exit code, whether the shell
/// asked to stop), from a fresh state: statements are executed until one
/// asks to stop.
pub open spec fn run_outcome(results: Seq<(u8, bool)>) -> (u8, bool)
    decreases results.len(),
{
    if results.len() == 0 {
        (0, false)
    } else {
        let prev = run_outcome(results.drop_last());
        if prev.1 {
            prev
        } else {
            after_result(results.last().0, results.last().1)
        }
    }
}

/// The number of leading results that get executed: up to and including
/// the first that asks to stop.
pub open spec fn executed_count(results: Seq<(u8, bool)>) -> nat
    decreases results.len(),
{
    if results.len() == 0 {
        0
    } else if run_outcome(results.drop_last()).1 {
        executed_count(results.drop_last())
    } else {
        results.len()
    }
}

/// The run's exit code is that of the last statement executed, or 0 when
/// none was; nothing after the first `exit` or `return` is executed.
pub proof fn lemma_run_exit_code(results: Seq<(u8, bool)>)
    ensures
        executed_count(results) <= results.len(),
        executed_count(results) == 0 ==> run_outcome(results) == (0u8, false),
        executed_count(results) > 0 ==> run_outcome(results).0 == results[executed_count(results) - 1].0,
        run_outcome(results).1 ==> executed_count(results) > 0 && results[executed_count(results) - 1].1,
        forall|k: int| 0 <= k < executed_count(results) - 1 ==> !(#[trigger] results[k].1),
    decreases results.len(),
{
    if results.len() > 0 {
        let prefix = results.drop_last();
        lemma_run_exit_code(prefix);
        assert forall|k: int| 0 <= k < executed_count(results) - 1 implies !(#[trigger] results[k].1) by {
            assert(results[k] == prefix[k]);
        }
    }
}

/// The interactive loop after it has read the complete lines `lines`, when
/// the j-th command it executes returns `results[j]` (exit code, whether
/// the shell asked to stop): the run state, as `RunState::record_result`
/// leaves it, and the commands executed, in order. Each line is classified
/// as `RunState::on_line` does: a blank one is skipped, any other executes
/// its command; nothing is read once the run has stopped.
pub open spec fn repl_after(lines: Seq<Seq<char>>, results: Seq<(u8, bool)>) -> (
    (u8, bool),
    Seq<Seq<char>>,
)
    decreases lines.len(),
{
    if lines.len() == 0 {
        ((0, false), seq![])
    } else {
        let (state, ran) = repl_after(lines.drop_last(), results);
        let c = line_command(lines.last());
        if state.1 || c.len() == 0 {
            (state, ran)
        } else {
            let res = results[ran.len() as int];
            (after_result(res.0, res.1), ran.push(c))
        }
    }
}

/// Inserting a blank line anywhere into the input of the interactive loop
/// changes neither the commands it executes (hence what it records) nor
/// its final state: the last exit code is not reset and the run does not
/// stop.
pub proof fn lemma_blank_lines_ignored(
    lines: Seq<Seq<char>>,
    k: int,
    blank: Seq<char>,
    results: Seq<(u8, bool)>,
)
    requires
        0 <= k <= lines.len(),
        line_command(blank).len() == 0,
    ensures
        repl_after(lines.insert(k, blank), results) == repl_after(lines, results),
    decreases lines.len(),
{
    let with = lines.insert(k, blank);
    if k == lines.len() {
        assert(with.drop_last() =~= lines);
    } else {
        assert(with.drop_last() =~= lines.drop_last().insert(k, blank));
        assert(with.last() == lines.last());
        lemma_blank_lines_ignored(lines.drop_last(), k, blank, results);
    }
}

/// Once a command of the interactive loop has asked to stop (`exit`), no
/// further input line is executed and the final state stays as it was.
pub proof fn lemma_repl_stops_at_exit(
    lines: Seq<Seq<char>>,
    more: Seq<Seq<char>>,
    results: Seq<(u8, bool)>,
)
    requires
        repl_after(lines, results).0.1,
    ensures
        repl_after(lines + more, results) == repl_after(lines, results),
    decreases more.len(),
{
    if more.len() > 0 {
        assert((lines + more).drop_last() =~= lines + more.drop_last());
        lemma_repl_stops_at_exit(lines, more.drop_last(), results);
    } else {
        assert(lines + more =~= lines);
    }
}

} // verus!
