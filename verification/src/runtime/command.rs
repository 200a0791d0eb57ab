//! Launch commands: a program's arguments, made of a model and resolved options.

use vstd::prelude::*;
use crate::chars;
use crate::domain::{option_views, OptionItem, OptionItemView};
use crate::names;
use crate::profiles::registry::{Dialect, OptionSchema};
use crate::text;
use crate::text::strs;

verus! {

/// A program and its arguments.
#[derive(Debug)]
pub struct Command {
    pub argv: Vec<String>,
}

impl View for Command {
    type V = Seq<Seq<char>>;

    open spec fn view(&self) -> Seq<Seq<char>> {
        strs(self.argv@)
    }
}

// --- options -----------------------------------------------------------------

/// The arguments for one option: none at the value at which it is left off, else
/// the flag, with the value behind it unless it takes none.
pub open spec fn option_args(dialect: Dialect, o: OptionItemView) -> Seq<Seq<char>> {
    if dialect.omitted_at(o.key) == Some(o.value) {
        Seq::<Seq<char>>::empty()
    } else if dialect.flag(o.key) {
        seq![o.cli]
    } else {
        seq![o.cli, dialect.spelled(o.key, o.value)]
    }
}

/// The arguments for the first `n` options, in their order.
pub open spec fn args_upto(dialect: Dialect, options: Seq<OptionItemView>, n: nat) -> Seq<Seq<char>>
    decreases n,
{
    if n == 0 {
        Seq::<Seq<char>>::empty()
    } else {
        args_upto(dialect, options, (n - 1) as nat) + option_args(dialect, options[n - 1])
    }
}

/// The arguments for all options.
pub open spec fn args_of(dialect: Dialect, options: Seq<OptionItemView>) -> Seq<Seq<char>> {
    args_upto(dialect, options, options.len())
}

impl Command {
    /// Appends the arguments for the options.
    pub fn append_options(argv: &mut Vec<String>, schema: &OptionSchema, options: &Vec<OptionItem>)
        ensures
            strs(final(argv)@) == strs(old(argv)@) + args_of(
                schema.dialect,
                option_views(options@),
            ),
    {
        let ghost start = strs(argv@);
        let ghost all = option_views(options@);
        let mut i: usize = 0;
        assert(strs(argv@) =~= start + args_upto(schema.dialect, all, 0));
        while i < options.len()
            invariant
                i <= options.len(),
                all == option_views(options@),
                strs(argv@) == start + args_upto(schema.dialect, all, i as nat),
            decreases options.len() - i,
        {
            let o = &options[i];
            assert(all[i as int] == o@);
            let ghost before = strs(argv@);
            let omitted = match schema.omit_token(o.key.as_str()) {
                Some(t) => text::same(t, o.value.as_str()),
                None => false,
            };
            if !omitted {
                argv.push(o.cli.clone());
                if !schema.is_flag(o.key.as_str()) {
                    argv.push(schema.cli_value(o.key.as_str(), o.value.as_str()));
                }
            }
            assert(strs(argv@) =~= before + option_args(schema.dialect, all[i as int]));
            assert(strs(argv@) =~= start + args_upto(schema.dialect, all, (i + 1) as nat));
            i += 1;
        }
    }
}

/// An option that is never left off, such as the port, stands on the command
/// line with its value behind it.
pub proof fn law_explicit_options_are_given(dialect: Dialect, options: Seq<OptionItemView>, i: int, n: nat)
    requires
        0 <= i < n <= options.len(),
        dialect.omitted_at(options[i].key) != Some(options[i].value),
        !dialect.flag(options[i].key),
    ensures
        exists|k: int|
            0 <= k && k + 1 < args_upto(dialect, options, n).len() && #[trigger] args_upto(
                dialect,
                options,
                n,
            )[k] == options[i].cli && args_upto(dialect, options, n)[k + 1] == dialect.spelled(
                options[i].key,
                options[i].value,
            ),
    decreases n,
{
    let rest = args_upto(dialect, options, (n - 1) as nat);
    let all = args_upto(dialect, options, n);
    if i == n - 1 {
        let k = rest.len() as int;
        assert(all[k] == options[i].cli);
        assert(all[k + 1] == dialect.spelled(options[i].key, options[i].value));
    } else {
        law_explicit_options_are_given(dialect, options, i, (n - 1) as nat);
        let k = choose|k: int|
            0 <= k && k + 1 < rest.len() && #[trigger] rest[k] == options[i].cli && rest[k + 1]
                == dialect.spelled(options[i].key, options[i].value);
        assert(all[k] == rest[k] && all[k + 1] == rest[k + 1]);
    }
}

/// Options that are all at the value at which they are left off add nothing.
pub proof fn law_omitted_options_add_nothing(dialect: Dialect, options: Seq<OptionItemView>, n: nat)
    requires
        n <= options.len(),
        forall|i: int|
            0 <= i < n ==> dialect.omitted_at((#[trigger] options[i]).key) == Some(
                options[i].value,
            ),
    ensures
        args_upto(dialect, options, n) == Seq::<Seq<char>>::empty(),
    decreases n,
{
    if n > 0 {
        law_omitted_options_add_nothing(dialect, options, (n - 1) as nat);
        assert(dialect.omitted_at(options[n - 1].key) == Some(options[n - 1].value));
        assert(args_upto(dialect, options, n) =~= Seq::<Seq<char>>::empty());
    }
}

// --- llama.cpp ---------------------------------------------------------------

/// The arguments for a companion file, if there is one.
pub open spec fn companion_args(flag: Seq<char>, file: Option<Seq<char>>) -> Seq<Seq<char>> {
    match file {
        Some(f) => seq![flag, f],
        None => Seq::<Seq<char>>::empty(),
    }
}

/// The view of an optional borrowed text.
pub open spec fn opt_ref(o: Option<&str>) -> Option<Seq<char>> {
    match o {
        Some(s) => Some(s@),
        None => None,
    }
}

fn push_text(argv: &mut Vec<String>, arg: &str)
    ensures
        strs(final(argv)@) == strs(old(argv)@).push(arg@),
{
    let ghost before = strs(argv@);
    argv.push(text::copy(arg));
    assert(strs(argv@) =~= before.push(arg@));
}

fn push_companion(argv: &mut Vec<String>, flag: &str, file: Option<&str>)
    ensures
        strs(final(argv)@) == strs(old(argv)@) + companion_args(flag@, opt_ref(file)),
{
    let ghost before = strs(argv@);
    if let Some(f) = file {
        push_text(argv, flag);
        push_text(argv, f);
    }
    assert(strs(argv@) =~= before + companion_args(flag@, opt_ref(file)));
}

/// A launch from a file on disk.
pub struct LocalCommand<'a> {
    pub binary: &'a str,
    pub model_path: &'a str,
    pub draft_path: Option<&'a str>,
    pub projector_path: Option<&'a str>,
}

/// The arguments of a launch from a file on disk: the model, its companions, then
/// the options.
pub open spec fn local_argv(binary: Seq<char>, model: Seq<char>, draft: Option<Seq<char>>, projector: Option<Seq<char>>, options: Seq<OptionItemView>) -> Seq<Seq<char>> {
    seq![binary, "-m"@, model] + companion_args("--spec-draft-model"@, draft) + companion_args(
        "--mmproj"@,
        projector,
    ) + args_of(Dialect::LlamaCpp, options)
}

impl<'a> LocalCommand<'a> {
    pub fn build(self, options: &Vec<OptionItem>) -> (r: Command)
        ensures
            r@ == local_argv(
                self.binary@,
                self.model_path@,
                opt_ref(self.draft_path),
                opt_ref(self.projector_path),
                option_views(options@),
            ),
    {
        let mut argv: Vec<String> = Vec::new();
        push_text(&mut argv, self.binary);
        push_text(&mut argv, "-m");
        push_text(&mut argv, self.model_path);
        assert(strs(argv@) =~= seq![self.binary@, "-m"@, self.model_path@]);
        push_companion(&mut argv, "--spec-draft-model", self.draft_path);
        push_companion(&mut argv, "--mmproj", self.projector_path);
        let schema = OptionSchema::of(Dialect::LlamaCpp);
        Command::append_options(&mut argv, &schema, options);
        Command { argv }
    }
}

/// A launch that has llama.cpp fetch the model from the Hub.
pub struct HuggingFaceCommand<'a> {
    pub binary: &'a str,
    pub repo: &'a str,
    pub file: &'a str,
    pub draft_path: Option<&'a str>,
    pub draft_hf: Option<&'a str>,
    pub projector_path: Option<&'a str>,
    pub projector_auto: bool,
}

/// The arguments for the draft model: a file on disk before one to fetch.
pub open spec fn draft_args(draft_path: Option<Seq<char>>, draft_hf: Option<Seq<char>>) -> Seq<Seq<char>> {
    if draft_path is Some {
        companion_args("--spec-draft-model"@, draft_path)
    } else {
        companion_args("--spec-draft-hf"@, draft_hf)
    }
}

/// The arguments for the projector: a file on disk before one to fetch.
pub open spec fn projector_args(projector_path: Option<Seq<char>>, auto: bool) -> Seq<Seq<char>> {
    if projector_path is Some {
        companion_args("--mmproj"@, projector_path)
    } else if auto {
        seq!["--mmproj-auto"@]
    } else {
        Seq::<Seq<char>>::empty()
    }
}

/// The arguments of a launch that fetches from the Hub.
pub open spec fn hub_argv(binary: Seq<char>, repo: Seq<char>, file: Seq<char>, draft: Seq<Seq<char>>, projector: Seq<Seq<char>>, options: Seq<OptionItemView>) -> Seq<Seq<char>> {
    seq![binary, "--hf-repo"@, repo, "--hf-file"@, file] + draft + projector + args_of(
        Dialect::LlamaCpp,
        options,
    )
}

impl<'a> HuggingFaceCommand<'a> {
    pub fn build(self, options: &Vec<OptionItem>) -> (r: Command)
        ensures
            r@ == hub_argv(
                self.binary@,
                self.repo@,
                self.file@,
                draft_args(opt_ref(self.draft_path), opt_ref(self.draft_hf)),
                projector_args(opt_ref(self.projector_path), self.projector_auto),
                option_views(options@),
            ),
    {
        let mut argv: Vec<String> = Vec::new();
        push_text(&mut argv, self.binary);
        push_text(&mut argv, "--hf-repo");
        push_text(&mut argv, self.repo);
        push_text(&mut argv, "--hf-file");
        push_text(&mut argv, self.file);
        assert(strs(argv@) =~= seq![
            self.binary@,
            "--hf-repo"@,
            self.repo@,
            "--hf-file"@,
            self.file@,
        ]);
        if self.draft_path.is_some() {
            push_companion(&mut argv, "--spec-draft-model", self.draft_path);
        } else {
            push_companion(&mut argv, "--spec-draft-hf", self.draft_hf);
        }
        let ghost drafted = strs(argv@);
        if self.projector_path.is_some() {
            push_companion(&mut argv, "--mmproj", self.projector_path);
        } else if self.projector_auto {
            push_text(&mut argv, "--mmproj-auto");
            assert(strs(argv@) =~= drafted + seq!["--mmproj-auto"@]);
        } else {
            assert(strs(argv@) =~= drafted + Seq::<Seq<char>>::empty());
        }
        let schema = OptionSchema::of(Dialect::LlamaCpp);
        Command::append_options(&mut argv, &schema, options);
        Command { argv }
    }
}

// --- as text -----------------------------------------------------------------

/// Whether a shell takes a character as it is.
pub open spec fn shell_plain(c: char) -> bool {
    chars::is_ascii_alnum(c) || c == '_' || c == '@' || c == '%' || c == '+' || c == '=' || c == ':'
        || c == ',' || c == '.' || c == '/' || c == '-'
}

/// Whether a shell takes a text as one word as it is.
pub open spec fn plain_word(s: Seq<char>) -> bool {
    s.len() > 0 && forall|i: int| 0 <= i < s.len() ==> shell_plain(#[trigger] s[i])
}

/// A text as one word of a shell: as it is, or in single quotes.
pub open spec fn quoted(s: Seq<char>) -> Seq<char> {
    if plain_word(s) {
        s
    } else {
        "'"@ + names::replaced(s, '\'', "'\\''"@) + "'"@
    }
}

/// A text as one word of a shell.
pub fn shell_quote(s: &str) -> (r: String)
    ensures
        r@ == quoted(s@),
{
    let cs = text::chars(s);
    let mut plain = cs.len() > 0;
    let mut i: usize = 0;
    while i < cs.len() && plain
        invariant
            cs@ == s@,
            i <= cs.len(),
            plain ==> cs.len() > 0 && forall|j: int| 0 <= j < i ==> shell_plain(#[trigger] s@[j]),
            !plain ==> !plain_word(s@),
        decreases cs.len() - i,
    {
        let c = cs[i];
        plain = chars::ascii_alnum(c) || c == '_' || c == '@' || c == '%' || c == '+' || c == '='
            || c == ':' || c == ',' || c == '.' || c == '/' || c == '-';
        assert(plain == shell_plain(s@[i as int]));
        i += 1;
    }
    if plain {
        text::copy(s)
    } else {
        text::cat3("'", names::replace_char(s, '\'', "'\\''").as_str(), "'")
    }
}

/// The arguments, each as one word of a shell.
pub open spec fn quoted_all(argv: Seq<Seq<char>>) -> Seq<Seq<char>> {
    argv.map_values(|a: Seq<char>| quoted(a))
}

/// The lines of a command for display: the program, then each flag with what
/// follows it up to the next flag on a line of its own.
pub open spec fn grouped(words: Seq<Seq<char>>, argv: Seq<Seq<char>>, n: nat) -> Seq<Seq<char>>
    decreases n,
{
    if n == 0 {
        Seq::<Seq<char>>::empty()
    } else {
        let rest = grouped(words, argv, (n - 1) as nat);
        let word = words[n - 1];
        if rest.len() == 0 || (argv[n - 1].len() > 0 && argv[n - 1][0] == '-') {
            rest.push(word)
        } else {
            rest.drop_last().push(rest.last() + " "@ + word)
        }
    }
}

impl Command {
    fn quoted_words(&self) -> (r: Vec<String>)
        ensures
            strs(r@) == quoted_all(self@),
    {
        let mut words: Vec<String> = Vec::new();
        let mut i: usize = 0;
        while i < self.argv.len()
            invariant
                i <= self.argv.len(),
                words.len() == i,
                forall|j: int| 0 <= j < i ==> (#[trigger] words@[j])@ == quoted(self.argv@[j]@),
            decreases self.argv.len() - i,
        {
            words.push(shell_quote(self.argv[i].as_str()));
            i += 1;
        }
        assert(strs(words@) =~= quoted_all(self@));
        words
    }

    /// The command on one line, for a shell.
    pub fn display(&self) -> (r: String)
        ensures
            r@ == text::join(quoted_all(self@), " "@),
    {
        text::join_all(&self.quoted_words(), " ")
    }

    /// The command with each flag on a line of its own, for a shell.
    pub fn pretty(&self) -> (r: String)
        ensures
            r@ == text::join(grouped(quoted_all(self@), self@, self@.len()), " \\\n  "@),
    {
        let words = self.quoted_words();
        let ghost all = quoted_all(self@);
        assert(strs(words@).len() == words@.len());
        let mut lines: Vec<String> = Vec::new();
        let mut i: usize = 0;
        assert(strs(lines@) =~= grouped(all, self@, 0));
        while i < words.len()
            invariant
                i <= words.len(),
                words.len() == self.argv.len(),
                all == strs(words@),
                strs(lines@) == grouped(all, self@, i as nat),
            decreases words.len() - i,
        {
            assert(all[i as int] == words@[i as int]@);
            assert(self@[i as int] == self.argv@[i as int]@);
            let arg = self.argv[i].as_str();
            let ghost before = strs(lines@);
            let n = lines.len();
            if n == 0 || (arg.unicode_len() > 0 && arg.get_char(0) == '-') {
                lines.push(words[i].clone());
                assert(strs(lines@) =~= before.push(all[i as int]));
            } else {
                assert(before[n - 1] == lines@[n - 1]@);
                lines[n - 1] = text::cat3(lines[n - 1].as_str(), " ", words[i].as_str());
                assert(strs(lines@) =~= before.drop_last().push(
                    before.last() + " "@ + all[i as int],
                ));
            }
            i += 1;
        }
        text::join_all(&lines, " \\\n  ")
    }
}

// --- as a shell reads it -----------------------------------------------------

/// The words that a POSIX shell reads from a line: within single quotes everything
/// stands for itself, outside a backslash keeps the next character, and a space ends a
/// word. `word` is what was read of the current one.
pub open spec fn shell_words(line: Seq<char>, inside: bool, word: Seq<char>) -> Seq<Seq<char>>
    decreases line.len(),
{
    if line.len() == 0 {
        seq![word]
    } else if line[0] == '\'' {
        shell_words(line.skip(1), !inside, word)
    } else if !inside && line[0] == '\\' && line.len() > 1 {
        shell_words(line.skip(2), inside, word.push(line[1]))
    } else if !inside && line[0] == ' ' {
        seq![word] + shell_words(line.skip(1), inside, Seq::<char>::empty())
    } else {
        shell_words(line.skip(1), inside, word.push(line[0]))
    }
}

proof fn lemma_replaced_front(s: Seq<char>, c: char, with: Seq<char>)
    requires
        s.len() > 0,
    ensures
        names::replaced(s, c, with) == (if s[0] == c {
            with
        } else {
            seq![s[0]]
        }) + names::replaced(s.skip(1), c, with),
    decreases s.len(),
{
    let first = if s[0] == c {
        with
    } else {
        seq![s[0]]
    };
    if s.len() == 1 {
        assert(s.drop_last() =~= Seq::<char>::empty());
        assert(s.skip(1) =~= Seq::<char>::empty());
        assert(names::replaced(s.drop_last(), c, with) =~= Seq::<char>::empty());
        assert(names::replaced(s, c, with) =~= first + names::replaced(s.skip(1), c, with));
    } else {
        lemma_replaced_front(s.drop_last(), c, with);
        assert(s.drop_last().skip(1) =~= s.skip(1).drop_last());
        assert(s.skip(1).last() == s.last());
        assert(names::replaced(s, c, with) =~= first + names::replaced(s.skip(1), c, with));
    }
}

proof fn lemma_read_quoted(s: Seq<char>, rest: Seq<char>, word: Seq<char>)
    ensures
        shell_words(
            names::replaced(s, '\'', "'\\''"@) + ("'"@ + rest),
            true,
            word,
        ) == shell_words(rest, false, word + s),
    decreases s.len(),
{
    reveal_strlit("'");
    reveal_strlit("'\\''");
    let mark = "'\\''"@;
    let line = names::replaced(s, '\'', mark) + ("'"@ + rest);
    assert("'"@ =~= seq!['\'']);
    assert(mark =~= seq!['\'', '\\', '\'', '\'']);
    if s.len() == 0 {
        assert(line =~= "'"@ + rest);
        assert(line.skip(1) =~= rest);
        assert(word + s =~= word);
    } else {
        lemma_replaced_front(s, '\'', mark);
        let after = names::replaced(s.skip(1), '\'', mark) + ("'"@ + rest);
        if s[0] == '\'' {
            assert(line =~= mark + after);
            assert(line[0] == '\'');
            let one = line.skip(1);
            assert(one[0] == '\\' && one[1] == '\'');
            let two = one.skip(2);
            assert(two[0] == '\'');
            assert(two.skip(1) =~= after);
            assert(shell_words(line, true, word) == shell_words(one, false, word));
            assert(shell_words(one, false, word) == shell_words(two, false, word.push('\'')));
            assert(shell_words(two, false, word.push('\'')) == shell_words(
                after,
                true,
                word.push('\''),
            ));
        } else {
            assert(line =~= seq![s[0]] + after);
            assert(line.skip(1) =~= after);
            assert(shell_words(line, true, word) == shell_words(after, true, word.push(s[0])));
        }
        lemma_read_quoted(s.skip(1), rest, word.push(s[0]));
        assert(word.push(s[0]) + s.skip(1) =~= word + s);
    }
}

proof fn lemma_read_plain(s: Seq<char>, rest: Seq<char>, word: Seq<char>)
    requires
        forall|i: int| 0 <= i < s.len() ==> shell_plain(#[trigger] s[i]),
    ensures
        shell_words(s + rest, false, word) == shell_words(rest, false, word + s),
    decreases s.len(),
{
    if s.len() == 0 {
        assert(s + rest =~= rest);
        assert(word + s =~= word);
    } else {
        let line = s + rest;
        let less = s.skip(1);
        assert(shell_plain(s[0]));
        assert(line[0] == s[0]);
        assert(line.skip(1) =~= less + rest);
        assert forall|i: int| 0 <= i < less.len() implies shell_plain(#[trigger] less[i]) by {
            assert(less[i] == s[i + 1]);
        }
        lemma_read_plain(less, rest, word.push(s[0]));
        assert(word.push(s[0]) + less =~= word + s);
    }
}

proof fn lemma_read_word(s: Seq<char>, rest: Seq<char>)
    ensures
        shell_words(quoted(s) + rest, false, Seq::<char>::empty()) == shell_words(rest, false, s),
{
    let none = Seq::<char>::empty();
    assert(none + s =~= s);
    if plain_word(s) {
        lemma_read_plain(s, rest, none);
    } else {
        reveal_strlit("'");
        let body = names::replaced(s, '\'', "'\\''"@);
        let line = quoted(s) + rest;
        assert(line =~= "'"@ + (body + ("'"@ + rest)));
        assert(line[0] == '\'');
        assert(line.skip(1) =~= body + ("'"@ + rest));
        lemma_read_quoted(s, rest, none);
    }
}

proof fn lemma_join_front(words: Seq<Seq<char>>)
    requires
        words.len() > 1,
    ensures
        text::join(words, " "@) == words[0] + (" "@ + text::join(words.skip(1), " "@)),
    decreases words.len(),
{
    let all = text::join(words, " "@);
    if words.len() == 2 {
        assert(words.drop_last() =~= seq![words[0]]);
        assert(words.skip(1) =~= seq![words[1]]);
        assert(text::join(words.drop_last(), " "@) == words[0]);
        assert(text::join(words.skip(1), " "@) == words[1]);
        assert(all =~= words[0] + (" "@ + text::join(words.skip(1), " "@)));
    } else {
        lemma_join_front(words.drop_last());
        assert(words.drop_last().skip(1) =~= words.skip(1).drop_last());
        assert(words.skip(1).last() == words.last());
        assert(all =~= words[0] + (" "@ + text::join(words.skip(1), " "@)));
    }
}

/// A shell reads the shown command as the very arguments, each as one word, whatever
/// they hold.
pub proof fn law_a_shell_reads_the_arguments_back(argv: Seq<Seq<char>>)
    requires
        argv.len() > 0,
    ensures
        shell_words(text::join(quoted_all(argv), " "@), false, Seq::<char>::empty()) == argv,
    decreases argv.len(),
{
    let none = Seq::<char>::empty();
    let words = quoted_all(argv);
    let line = text::join(words, " "@);
    assert(words[0] == quoted(argv[0]));
    if argv.len() == 1 {
        assert(line + none =~= line);
        lemma_read_word(argv[0], none);
        assert(argv =~= seq![argv[0]]);
    } else {
        let rest = argv.skip(1);
        lemma_join_front(words);
        assert(words.skip(1) =~= quoted_all(rest));
        let tail = text::join(quoted_all(rest), " "@);
        reveal_strlit(" ");
        lemma_read_word(argv[0], " "@ + tail);
        assert((" "@ + tail)[0] == ' ');
        assert((" "@ + tail).skip(1) =~= tail);
        law_a_shell_reads_the_arguments_back(rest);
        assert(seq![argv[0]] + rest =~= argv);
    }
}

proof fn lemma_grouped(words: Seq<Seq<char>>, argv: Seq<Seq<char>>, n: nat)
    requires
        n <= words.len(),
        words.len() == argv.len(),
    ensures
        text::join(grouped(words, argv, n), " "@) == text::join(words.take(n as int), " "@),
        n > 0 ==> grouped(words, argv, n).len() > 0,
    decreases n,
{
    if n == 0 {
        assert(words.take(0) =~= Seq::<Seq<char>>::empty());
    } else {
        lemma_grouped(words, argv, (n - 1) as nat);
        let rest = grouped(words, argv, (n - 1) as nat);
        let all = grouped(words, argv, n);
        let word = words[n - 1];
        let some = words.take(n as int);
        assert(some.drop_last() =~= words.take(n - 1));
        assert(some.last() == word);
        if rest.len() == 0 {
            assert(n == 1);
            assert(all =~= seq![word]);
        } else if argv[n - 1].len() > 0 && argv[n - 1][0] == '-' {
            assert(all.drop_last() =~= rest);
            assert(n > 1);
        } else {
            let line = rest.last() + " "@ + word;
            assert(all =~= rest.drop_last().push(line));
            assert(all.drop_last() =~= rest.drop_last());
            assert(n > 1);
            if rest.len() > 1 {
                assert(text::join(all, " "@) =~= text::join(rest, " "@) + " "@ + word);
            } else {
                assert(rest =~= seq![rest.last()]);
                assert(text::join(all, " "@) =~= text::join(rest, " "@) + " "@ + word);
            }
        }
    }
}

/// Broken into lines, a command is still the same command: with spaces for the breaks
/// it is the one line.
pub proof fn law_lines_make_the_one_line(argv: Seq<Seq<char>>)
    ensures
        text::join(grouped(quoted_all(argv), argv, argv.len()), " "@) == text::join(
            quoted_all(argv),
            " "@,
        ),
{
    lemma_grouped(quoted_all(argv), argv, argv.len());
    assert(quoted_all(argv).take(argv.len() as int) =~= quoted_all(argv));
}

/// A word that means nothing to a shell is shown as it is, and any other in quotes.
pub proof fn law_plain_words_are_shown_as_they_are(s: Seq<char>)
    requires
        s.len() > 0,
    ensures
        (forall|i: int|
            0 <= i < s.len() ==> {
                let c = #[trigger] s[i];
                chars::is_ascii_alnum(c) || c == '_' || c == '@' || c == '%' || c == '+' || c == '='
                    || c == ':' || c == ',' || c == '.' || c == '/' || c == '-'
            }) ==> quoted(s) == s,
        (exists|i: int|
            0 <= i < s.len() && ({
                let c = #[trigger] s[i];
                c == ' ' || c == '$' || c == ';' || c == '"' || c == '*' || c == '|'
            })) ==> quoted(s)[0] == '\'' && quoted(s).last() == '\'',
{
    reveal_strlit("'");
    if exists|i: int|
        0 <= i < s.len() && ({
            let c = #[trigger] s[i];
            c == ' ' || c == '$' || c == ';' || c == '"' || c == '*' || c == '|'
        }) {
        let i = choose|i: int|
            0 <= i < s.len() && ({
                let c = #[trigger] s[i];
                c == ' ' || c == '$' || c == ';' || c == '"' || c == '*' || c == '|'
            });
        assert(!shell_plain(s[i]));
    }
}

} // verus!
