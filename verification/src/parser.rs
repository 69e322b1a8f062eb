//! The command line: its tokens, and the commands, arguments, assignments
//! and redirections that the tokens describe.

use vstd::prelude::*;
use crate::process::{Redirection, RedirectionView};
use crate::variable::{text_of, Store, Variables};
use crate::text::{chars_of, same_text, texts};

verus! {

/// Whether a character ends a word.
pub open spec fn is_break(c: char) -> bool {
    c == '>' || c == '|' || c == '<' || c == ' ' || c == '=' || c == '\n'
}

/// The number of characters of `s` before the first that ends a word.
pub open spec fn word_len(s: Seq<char>) -> nat
    decreases s.len(),
{
    if s.len() == 0 || is_break(s[0]) {
        0
    } else {
        1 + word_len(s.skip(1))
    }
}

/// The number of characters of `s` before the first `c`.
pub open spec fn until(s: Seq<char>, c: char) -> nat
    decreases s.len(),
{
    if s.len() == 0 || s[0] == c {
        0
    } else {
        1 + until(s.skip(1), c)
    }
}

/// The length of the lexeme that `s`, which is not empty, begins with:
/// a quoted text up to its closing quote, or to the end of the line where
/// the quote is not closed; an operator of one character, or of two where
/// `|`, `>` or `&` is doubled; a space or a line feed; or a word, up to
/// the character that ends it.
pub open spec fn lexeme_len(s: Seq<char>) -> nat {
    let c = s[0];
    if c == '\'' {
        if until(s.skip(1), '\'') + 1 < s.len() {
            until(s.skip(1), '\'') + 2
        } else {
            s.len()
        }
    } else if c == '|' || c == '>' || c == '&' {
        if s.len() > 1 && s[1] == c {
            2
        } else {
            1
        }
    } else if c == ' ' || c == '<' || c == '=' || c == '\n' {
        1
    } else {
        word_len(s)
    }
}

/// Whether the lexeme that `s` begins with is a token: all but a line
/// feed and a single `&`.
pub open spec fn is_token(s: Seq<char>) -> bool {
    let c = s[0];
    if c == '\n' {
        false
    } else if c == '&' {
        s.len() > 1 && s[1] == '&'
    } else {
        true
    }
}

/// The tokens of a command line, in order. Spaces are tokens too.
pub open spec fn tokens(s: Seq<char>) -> Seq<Seq<char>>
    decreases s.len(),
    via tokens_decreases
{
    if s.len() == 0 {
        Seq::empty()
    } else {
        let n = lexeme_len(s);
        if is_token(s) {
            seq![s.take(n as int)] + tokens(s.skip(n as int))
        } else {
            tokens(s.skip(n as int))
        }
    }
}

#[via_fn]
proof fn tokens_decreases(s: Seq<char>) {
    if s.len() > 0 {
        lemma_lexeme_len(s);
    }
}

/// Whether `p` is the place of the last `&` of `s`.
pub open spec fn is_last_amp(s: Seq<char>, p: int) -> bool {
    &&& 0 <= p < s.len()
    &&& s[p] == '&'
    &&& forall|q: int| p < q < s.len() ==> s[q] != '&'
}

/// Whether a command line asks to run in the background: its last `&`
/// does not follow another `&`.
pub open spec fn asks_background(s: Seq<char>) -> bool {
    exists|p: int| is_last_amp(s, p) && (p == 0 || s[p - 1] != '&')
}

/// The lexeme of a line that is not empty has at least one character and
/// ends within the line.
pub proof fn lemma_lexeme_len(s: Seq<char>)
    requires
        s.len() > 0,
    ensures
        1 <= lexeme_len(s) <= s.len(),
{
    lemma_word_len(s);
}

/// A word ends within the line.
pub proof fn lemma_word_len(s: Seq<char>)
    ensures
        word_len(s) <= s.len(),
        s.len() > 0 && !is_break(s[0]) ==> word_len(s) >= 1,
    decreases s.len(),
{
    if s.len() > 0 && !is_break(s[0]) {
        lemma_word_len(s.skip(1));
    }
}

/// The first `c`, if any, stands within the line.
pub proof fn lemma_until(s: Seq<char>, c: char)
    ensures
        until(s, c) <= s.len(),
        until(s, c) < s.len() ==> s[until(s, c) as int] == c,
        forall|i: int| 0 <= i < until(s, c) ==> s[i] != c,
    decreases s.len(),
{
    if s.len() > 0 && s[0] != c {
        lemma_until(s.skip(1), c);
        assert forall|i: int| 0 <= i < until(s, c) implies s[i] != c by {
            if i > 0 {
                assert(s.skip(1)[i - 1] == s[i]);
            }
        }
    }
}

/// The number of characters from `from` to the first that ends a word.
fn scan_word(chars: &Vec<char>, from: usize) -> (r: usize)
    requires
        from <= chars@.len(),
    ensures
        r == word_len(chars@.skip(from as int)),
        from + r <= chars@.len(),
{
    let n = chars.len();
    let mut j: usize = from;
    while j < n
        invariant
            n == chars@.len(),
            from <= j <= n,
            word_len(chars@.skip(from as int)) == (j - from) + word_len(chars@.skip(j as int)),
        decreases n - j,
    {
        let c = chars[j];
        if c == '>' || c == '|' || c == '<' || c == ' ' || c == '=' || c == '\n' {
            return j - from;
        }
        assert(chars@.skip(j as int).skip(1) =~= chars@.skip(j + 1));
        j += 1;
    }
    j - from
}

/// The number of characters from `from` to the first `stop`.
fn scan_until(chars: &Vec<char>, from: usize, stop: char) -> (r: usize)
    requires
        from <= chars@.len(),
    ensures
        r == until(chars@.skip(from as int), stop),
        from + r <= chars@.len(),
{
    let n = chars.len();
    let mut j: usize = from;
    while j < n
        invariant
            n == chars@.len(),
            from <= j <= n,
            until(chars@.skip(from as int), stop) == (j - from) + until(
                chars@.skip(j as int),
                stop,
            ),
        decreases n - j,
    {
        let c = chars[j];
        if c == stop {
            return j - from;
        }
        assert(chars@.skip(j as int).skip(1) =~= chars@.skip(j + 1));
        j += 1;
    }
    j - from
}

/// The length of the lexeme that begins at `from`.
fn scan_lexeme(chars: &Vec<char>, from: usize) -> (r: usize)
    requires
        from < chars@.len(),
    ensures
        r == lexeme_len(chars@.skip(from as int)),
        1 <= r,
        from + r <= chars@.len(),
{
    let n = chars.len();
    let c = chars[from];
    let ghost s = chars@.skip(from as int);
    proof {
        assert(s.skip(1) =~= chars@.skip(from + 1));
    }
    if c == '\'' {
        let k = scan_until(chars, from + 1, '\'');
        if k + 1 < n - from {
            k + 2
        } else {
            n - from
        }
    } else if c == '|' || c == '>' || c == '&' {
        if n - from > 1 && chars[from + 1] == c {
            2
        } else {
            1
        }
    } else if c == ' ' || c == '<' || c == '=' || c == '\n' {
        1
    } else {
        scan_word(chars, from)
    }
}

/// Whether the line asks to run in the background.
fn scan_background(chars: &Vec<char>) -> (r: bool)
    ensures
        r == asks_background(chars@),
{
    let mut p: usize = chars.len();
    while p > 0
        invariant
            p <= chars@.len(),
            forall|q: int| p <= q < chars@.len() ==> chars@[q] != '&',
        decreases p,
    {
        p -= 1;
        if chars[p] == '&' {
            assert(is_last_amp(chars@, p as int));
            return p == 0 || chars[p - 1] != '&';
        }
    }
    false
}

/// Splits a command line into tokens, and says whether the line asks to
/// run in the background.
pub fn parseline(cmdline: &str) -> (r: (bool, Vec<String>))
    ensures
        r.0 == asks_background(cmdline@),
        texts(r.1@) == tokens(cmdline@),
{
    let chars = chars_of(cmdline);
    let bg = scan_background(&chars);
    let n = chars.len();
    let mut argv: Vec<String> = Vec::new();
    let mut i: usize = 0;
    assert(chars@.skip(0) =~= chars@);
    while i < n
        invariant
            n == chars@.len(),
            chars@ == cmdline@,
            i <= n,
            texts(argv@) + tokens(chars@.skip(i as int)) == tokens(chars@),
        decreases n - i,
    {
        let len = scan_lexeme(&chars, i);
        let c = chars[i];
        let ghost s = chars@.skip(i as int);
        proof {
            assert(s.skip(len as int) =~= chars@.skip(i + len));
            assert(s.take(len as int) =~= chars@.subrange(i as int, i + len));
        }
        let keep = if c == '\n' {
            false
        } else if c == '&' {
            len == 2
        } else {
            true
        };
        if keep {
            argv.push(cmdline.substring_char(i, i + len).to_owned());
        }
        i += len;
    }
    (bg, argv)
}

/// The pieces of `s` between its spaces; two spaces in a row hold an
/// empty piece between them.
pub open spec fn split(s: Seq<char>) -> Seq<Seq<char>>
    decreases s.len(),
{
    let k = until(s, ' ');
    if k >= s.len() {
        seq![s]
    } else {
        seq![s.take(k as int)] + split(s.skip((k + 1) as int))
    }
}

/// A value without its first and its last character, which are its
/// quotes.
pub open spec fn unquoted(value: Seq<char>) -> Seq<char> {
    if value.len() >= 2 {
        value.subrange(1, value.len() - 1)
    } else {
        Seq::empty()
    }
}

/// The value that an assignment gives: what stands behind the `=`,
/// without its quotes where it holds one.
pub open spec fn assigned(value: Seq<char>) -> Seq<char> {
    if value.contains('\'') {
        unquoted(value)
    } else {
        value
    }
}

/// The words that a word stands for. A word that begins with `$` and
/// names a variable of the store stands for the pieces of the text of
/// that variable; every other word stands for itself.
pub open spec fn expansion(word: Seq<char>, vars: Store) -> Seq<Seq<char>> {
    if word.len() > 0 && word[0] == '$' && vars.contains_key(word.skip(1)) {
        split(text_of(vars[word.skip(1)]))
    } else {
        seq![word]
    }
}

/// What has been read of a command line: for each command its name, its
/// arguments and the redirections of its input and output, and the
/// assignments.
pub struct Parsed {
    pub cmds: Seq<Seq<char>>,
    pub args: Seq<Seq<Seq<char>>>,
    pub env: Seq<(Seq<char>, Seq<char>)>,
    pub stdin_redir: Seq<RedirectionView>,
    pub stdout_redir: Seq<RedirectionView>,
    /// Whether the next word is to be passed over: it is the target of a
    /// redirection or the value of an assignment, and has been read.
    pub skip: bool,
}

impl Parsed {
    /// Before the first token: one command, without a name yet.
    pub open spec fn start() -> Parsed {
        Parsed {
            cmds: seq![Seq::empty()],
            args: seq![Seq::empty()],
            env: Seq::empty(),
            stdin_redir: seq![RedirectionView::Normal],
            stdout_redir: seq![RedirectionView::Normal],
            skip: false,
        }
    }

    /// There is a command, and each command has its arguments and its two
    /// redirections.
    pub open spec fn wf(self) -> bool {
        &&& self.cmds.len() >= 1
        &&& self.args.len() == self.cmds.len()
        &&& self.stdin_redir.len() == self.cmds.len()
        &&& self.stdout_redir.len() == self.cmds.len()
    }

    /// After a `|`: the command writes to a pipe, and a new command reads
    /// from it.
    pub open spec fn piped(self) -> Parsed {
        Parsed {
            cmds: self.cmds.push(Seq::empty()),
            args: self.args.push(Seq::empty()),
            stdin_redir: self.stdin_redir.push(RedirectionView::Pipe),
            stdout_redir: self.stdout_redir.update(
                self.stdout_redir.len() - 1,
                RedirectionView::Pipe,
            ).push(RedirectionView::Normal),
            ..self
        }
    }

    /// After `&&` or `||`: the command writes to the stream of the shell,
    /// a command named `&&` marks the place, and a new command begins.
    pub open spec fn chained(self) -> Parsed {
        Parsed {
            cmds: self.cmds.push("&&"@).push(Seq::empty()),
            args: self.args.push(Seq::empty()).push(Seq::empty()),
            stdin_redir: self.stdin_redir.push(RedirectionView::Normal).push(
                RedirectionView::Normal,
            ),
            stdout_redir: self.stdout_redir.update(
                self.stdout_redir.len() - 1,
                RedirectionView::Normal,
            ).push(RedirectionView::Normal).push(RedirectionView::Normal),
            ..self
        }
    }

    /// The command reads from the file `path`.
    pub open spec fn reading(self, path: Seq<char>) -> Parsed {
        Parsed {
            stdin_redir: self.stdin_redir.update(
                self.stdin_redir.len() - 1,
                RedirectionView::File(path, false),
            ),
            ..self
        }
    }

    /// The command writes to the file `path`. The flag that asks to
    /// append is not set, after `>>` no more than after `>`.
    pub open spec fn writing(self, path: Seq<char>) -> Parsed {
        Parsed {
            stdout_redir: self.stdout_redir.update(
                self.stdout_redir.len() - 1,
                RedirectionView::File(path, false),
            ),
            ..self
        }
    }

    /// After `words`, of which there is at least one: the first names the
    /// command where it has no name yet, and the others are arguments.
    pub open spec fn worded(self, words: Seq<Seq<char>>) -> Parsed {
        let last = self.cmds.len() - 1;
        if self.cmds[last].len() == 0 {
            Parsed {
                cmds: self.cmds.update(last, words[0]),
                args: self.args.update(last, self.args[last] + words.skip(1)),
                ..self
            }
        } else {
            Parsed { args: self.args.update(last, self.args[last] + words), ..self }
        }
    }

    /// After token `i` of `argv`.
    pub open spec fn step(self, argv: Seq<Seq<char>>, i: int, vars: Store) -> Parsed {
        let token = argv[i];
        if token == "|"@ {
            self.piped()
        } else if token == "<"@ {
            if i + 2 < argv.len() {
                Parsed { skip: true, ..self.reading(argv[i + 2]) }
            } else {
                Parsed { skip: true, ..self }
            }
        } else if token == ">"@ || token == ">>"@ {
            if i + 2 < argv.len() {
                Parsed { skip: true, ..self.writing(argv[i + 2]) }
            } else {
                Parsed { skip: true, ..self }
            }
        } else if token == "="@ {
            Parsed { skip: true, ..self }
        } else if token == " "@ {
            self
        } else if token == "&&"@ || token == "||"@ {
            self.chained()
        } else if self.skip {
            Parsed { skip: false, ..self }
        } else if i + 2 < argv.len() && argv[i + 1] == "="@ {
            Parsed { env: self.env.push((token, assigned(argv[i + 2]))), skip: true, ..self }
        } else {
            self.worded(expansion(token, vars))
        }
    }
}

/// What the first `n` tokens of `argv` describe.
pub open spec fn parsed(argv: Seq<Seq<char>>, n: nat, vars: Store) -> Parsed
    decreases n,
{
    if n == 0 {
        Parsed::start()
    } else {
        parsed(argv, (n - 1) as nat, vars).step(argv, n - 1, vars)
    }
}

/// The views of the argument lists of the commands.
pub open spec fn nested(args: Seq<Vec<String>>) -> Seq<Seq<Seq<char>>> {
    args.map_values(|list: Vec<String>| texts(list@))
}

/// The views of a sequence of assignments.
pub open spec fn pairs(env: Seq<(String, String)>) -> Seq<(Seq<char>, Seq<char>)> {
    env.map_values(|pair: (String, String)| (pair.0@, pair.1@))
}

/// The views of a sequence of redirections.
pub open spec fn redirections(items: Seq<Redirection>) -> Seq<RedirectionView> {
    items.map_values(|item: Redirection| item@)
}

/// The pieces of `text` between its spaces.
fn split_words(text: &str) -> (r: Vec<String>)
    ensures
        texts(r@) == split(text@),
        r@.len() >= 1,
{
    let chars = chars_of(text);
    let n = chars.len();
    let mut pieces: Vec<String> = Vec::new();
    let mut i: usize = 0;
    assert(chars@.skip(0) =~= chars@);
    loop
        invariant
            n == chars@.len(),
            chars@ == text@,
            i <= n,
            texts(pieces@) + split(chars@.skip(i as int)) == split(chars@),
        decreases n - i,
    {
        let k = scan_until(&chars, i, ' ');
        let ghost s = chars@.skip(i as int);
        pieces.push(text.substring_char(i, i + k).to_owned());
        proof {
            assert(s.take(k as int) =~= chars@.subrange(i as int, i + k));
            if i + k < n {
                assert(s.skip((k + 1) as int) =~= chars@.skip(i + k + 1));
            }
        }
        if i + k >= n {
            return pieces;
        }
        i = i + k + 1;
    }
}

/// Whether a quote stands among the characters.
fn has_quote(chars: &Vec<char>) -> (r: bool)
    ensures
        r == chars@.contains('\''),
{
    let n = chars.len();
    let mut i: usize = 0;
    while i < n
        invariant
            n == chars@.len(),
            i <= n,
            forall|j: int| 0 <= j < i ==> chars@[j] != '\'',
        decreases n - i,
    {
        if chars[i] == '\'' {
            return true;
        }
        i += 1;
    }
    false
}

/// The value that an assignment gives, from what stands behind the `=`.
fn assigned_value(value: &str) -> (r: String)
    ensures
        r@ == assigned(value@),
{
    let chars = chars_of(value);
    let n = chars.len();
    if has_quote(&chars) {
        if n >= 2 {
            value.substring_char(1, n - 1).to_owned()
        } else {
            String::new()
        }
    } else {
        value.to_owned()
    }
}

/// The words that a word stands for.
fn expand(word: &str, vars: &Variables) -> (r: Vec<String>)
    requires
        vars.wf(),
    ensures
        texts(r@) == expansion(word@, vars@),
        r@.len() >= 1,
{
    let chars = chars_of(word);
    let n = chars.len();
    if n > 0 && chars[0] == '$' {
        let name = word.substring_char(1, n);
        match vars.get(name) {
            Some(variable) => {
                return split_words(variable.as_str());
            },
            None => {},
        }
    }
    let mut r: Vec<String> = Vec::new();
    r.push(word.to_owned());
    r
}

/// Appends the words from `from` on to the arguments of command `at`.
fn append_words(args: &mut Vec<Vec<String>>, at: usize, words: &Vec<String>, from: usize)
    requires
        at < old(args)@.len(),
        from <= words@.len(),
    ensures
        nested(final(args)@) == nested(old(args)@).update(
            at as int,
            nested(old(args)@)[at as int] + texts(words@).skip(from as int),
        ),
{
    let n = words.len();
    let mut k: usize = from;
    let ghost start = nested(args@);
    while k < n
        invariant
            n == words@.len(),
            from <= k <= n,
            at < args@.len(),
            start == nested(old(args)@),
            start.len() == args@.len(),
            nested(args@) == start.update(
                at as int,
                start[at as int] + texts(words@).subrange(from as int, k as int),
            ),
        decreases n - k,
    {
        let ghost before = args@;
        args[at].push(words[k].clone());
        proof {
            assert(texts(words@).subrange(from as int, k + 1) =~= texts(words@).subrange(
                from as int,
                k as int,
            ).push(words@[k as int]@));
            assert(texts(args@[at as int]@) =~= texts(before[at as int]@).push(
                words@[k as int]@,
            ));
            assert forall|j: int| 0 <= j < args@.len() && j != at implies #[trigger] nested(
                args@,
            )[j] == start[j] by {
                assert(nested(before)[j] == start[j]);
            }
            assert(nested(before)[at as int] == texts(before[at as int]@));
        }
        k += 1;
    }
}

/// What has been read so far, as the five lists hold it.
pub open spec fn reading_of(
    cmds: Seq<String>,
    args: Seq<Vec<String>>,
    env: Seq<(String, String)>,
    stdin_redir: Seq<Redirection>,
    stdout_redir: Seq<Redirection>,
    skip: bool,
) -> Parsed {
    Parsed {
        cmds: texts(cmds),
        args: nested(args),
        env: pairs(env),
        stdin_redir: redirections(stdin_redir),
        stdout_redir: redirections(stdout_redir),
        skip,
    }
}

/// Reads the commands of a pipeline off the tokens of a command line:
/// for each command its name, its arguments and the redirections of its
/// input and output, and besides them the assignments. Words that begin
/// with `$` are replaced by the text of the variable that they name.
pub fn parseargs(argv: &Vec<String>, vars: &Variables) -> (r: (
    Vec<String>,
    Vec<Vec<String>>,
    Vec<(String, String)>,
    Vec<Redirection>,
    Vec<Redirection>,
))
    requires
        vars.wf(),
    ensures
        reading_of(r.0@, r.1@, r.2@, r.3@, r.4@, false) == (Parsed {
            skip: false,
            ..parsed(texts(argv@), argv@.len(), vars@)
        }),
        parsed(texts(argv@), argv@.len(), vars@).wf(),
{
    let mut cmds: Vec<String> = Vec::new();
    let mut args: Vec<Vec<String>> = Vec::new();
    let mut env: Vec<(String, String)> = Vec::new();
    let mut stdin_redir: Vec<Redirection> = Vec::new();
    let mut stdout_redir: Vec<Redirection> = Vec::new();
    cmds.push(String::new());
    args.push(Vec::new());
    stdin_redir.push(Redirection::Normal);
    stdout_redir.push(Redirection::Normal);
    let mut skip = false;
    let n = argv.len();
    let ghost tokens = texts(argv@);
    proof {
        let p = reading_of(cmds@, args@, env@, stdin_redir@, stdout_redir@, skip);
        assert(p.cmds =~= Parsed::start().cmds);
        assert(p.args =~~= Parsed::start().args);
        assert(p.env =~= Parsed::start().env);
        assert(p.stdin_redir =~= Parsed::start().stdin_redir);
    }
    let mut i: usize = 0;
    while i < n
        invariant
            vars.wf(),
            n == argv@.len(),
            tokens == texts(argv@),
            i <= n,
            reading_of(cmds@, args@, env@, stdin_redir@, stdout_redir@, skip) == parsed(
                tokens,
                i as nat,
                vars@,
            ),
            parsed(tokens, i as nat, vars@).wf(),
        decreases n - i,
    {
        let token = argv[i].as_str();
        let curr = cmds.len() - 1;
        let ghost p = parsed(tokens, i as nat, vars@);
        let ghost q = p.step(tokens, i as int, vars@);
        if same_text(token, "|") {
            stdout_redir.set(curr, Redirection::Pipe);
            stdin_redir.push(Redirection::Pipe);
            stdout_redir.push(Redirection::Normal);
            cmds.push(String::new());
            args.push(Vec::new());
            proof {
                assert(texts(cmds@) =~= q.cmds);
                assert(nested(args@) =~~= q.args);
                assert(redirections(stdin_redir@) =~= q.stdin_redir);
                assert(redirections(stdout_redir@) =~= q.stdout_redir);
            }
        } else if same_text(token, "<") {
            if n - i > 2 {
                stdin_redir.set(curr, Redirection::File((argv[i + 2].clone(), false)));
                assert(redirections(stdin_redir@) =~= q.stdin_redir);
            }
            skip = true;
        } else if same_text(token, ">") || same_text(token, ">>") {
            if n - i > 2 {
                stdout_redir.set(curr, Redirection::File((argv[i + 2].clone(), false)));
                assert(redirections(stdout_redir@) =~= q.stdout_redir);
            }
            skip = true;
        } else if same_text(token, "=") {
            skip = true;
        } else if same_text(token, " ") {
        } else if same_text(token, "&&") || same_text(token, "||") {
            stdout_redir.set(curr, Redirection::Normal);
            stdin_redir.push(Redirection::Normal);
            stdout_redir.push(Redirection::Normal);
            stdin_redir.push(Redirection::Normal);
            stdout_redir.push(Redirection::Normal);
            cmds.push("&&".to_owned());
            args.push(Vec::new());
            cmds.push(String::new());
            args.push(Vec::new());
            proof {
                assert(texts(cmds@) =~= q.cmds);
                assert(nested(args@) =~~= q.args);
                assert(redirections(stdin_redir@) =~= q.stdin_redir);
                assert(redirections(stdout_redir@) =~= q.stdout_redir);
            }
        } else if skip {
            skip = false;
        } else if n - i > 2 && same_text(argv[i + 1].as_str(), "=") {
            env.push((argv[i].clone(), assigned_value(argv[i + 2].as_str())));
            skip = true;
            assert(pairs(env@) =~= q.env);
        } else {
            let words = expand(token, vars);
            if cmds[curr].as_str().is_empty() {
                cmds.set(curr, words[0].clone());
                append_words(&mut args, curr, &words, 1);
                assert(texts(cmds@) =~= q.cmds);
            } else {
                append_words(&mut args, curr, &words, 0);
                assert(texts(words@).skip(0) =~= texts(words@));
            }
        }
        i += 1;
    }
    (cmds, args, env, stdin_redir, stdout_redir)
}

} // verus!
