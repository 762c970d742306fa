//! Launch commands: splitting a command line into words, taking `KEY=value`
//! words out as environment variables, and filling a launch profile's format
//! string with the game's own command.
use vstd::prelude::*;
use crate::text::{chars_of, contains_char, find_char, index_from, is_blank, lemma_index_from_scan, push_all, slice_chars, lemma_split_on_nonempty, split_chars, split_on, string_from_chars, trim, views_of};

verus! {

/// The views of a sequence of strings.
pub open spec fn string_views(v: Seq<String>) -> Seq<Seq<char>> {
    v.map_values(|s: String| s@)
}

/// Where the word splitter stands after reading part of a command line.
pub struct TokenizerState {
    /// Words finished so far.
    pub tokens: Seq<Seq<char>>,
    /// The word being read.
    pub current: Seq<char>,
    pub in_single_quotes: bool,
    pub in_double_quotes: bool,
}

pub open spec fn tokenizer_start() -> TokenizerState {
    TokenizerState {
        tokens: Seq::empty(),
        current: Seq::empty(),
        in_single_quotes: false,
        in_double_quotes: false,
    }
}

/// One character read by the word splitter: a quote opens or closes a quoted
/// part (a single quote inside double quotes, and a double quote inside single
/// quotes, are ordinary characters); a space outside quotes ends the current
/// word, if any; any other character is added to the current word. Quotes are
/// never part of a word.
pub open spec fn tokenizer_step(st: TokenizerState, c: char) -> TokenizerState {
    if c == '\'' && !st.in_double_quotes {
        TokenizerState {
            tokens: st.tokens,
            current: st.current,
            in_single_quotes: !st.in_single_quotes,
            in_double_quotes: st.in_double_quotes,
        }
    } else if c == '"' && !st.in_single_quotes {
        TokenizerState {
            tokens: st.tokens,
            current: st.current,
            in_single_quotes: st.in_single_quotes,
            in_double_quotes: !st.in_double_quotes,
        }
    } else if c == ' ' && !st.in_single_quotes && !st.in_double_quotes {
        if st.current.len() > 0 {
            TokenizerState {
                tokens: st.tokens.push(st.current),
                current: Seq::empty(),
                in_single_quotes: st.in_single_quotes,
                in_double_quotes: st.in_double_quotes,
            }
        } else {
            st
        }
    } else {
        TokenizerState {
            tokens: st.tokens,
            current: st.current.push(c),
            in_single_quotes: st.in_single_quotes,
            in_double_quotes: st.in_double_quotes,
        }
    }
}

/// The word splitter's state after reading all of `s`.
pub open spec fn tokenizer_run(s: Seq<char>) -> TokenizerState
    decreases s.len(),
{
    if s.len() == 0 {
        tokenizer_start()
    } else {
        tokenizer_step(tokenizer_run(s.drop_last()), s.last())
    }
}

/// The words of the command line `s`: the finished words, then the last one if
/// it is not empty. An unclosed quote runs to the end of the line.
pub open spec fn tokenize(s: Seq<char>) -> Seq<Seq<char>> {
    let st = tokenizer_run(s);
    if st.current.len() > 0 {
        st.tokens.push(st.current)
    } else {
        st.tokens
    }
}

/// The word splitter's state after reading `s` from `st`.
pub open spec fn tokenizer_run_from(st: TokenizerState, s: Seq<char>) -> TokenizerState
    decreases s.len(),
{
    if s.len() == 0 {
        st
    } else {
        tokenizer_step(tokenizer_run_from(st, s.drop_last()), s.last())
    }
}

proof fn lemma_run_concat(a: Seq<char>, b: Seq<char>)
    ensures
        tokenizer_run(a + b) == tokenizer_run_from(tokenizer_run(a), b),
    decreases b.len(),
{
    if b.len() == 0 {
        assert(a + b =~= a);
    } else {
        assert((a + b).drop_last() =~= a + b.drop_last());
        assert((a + b).last() == b.last());
        lemma_run_concat(a, b.drop_last());
    }
}

proof fn lemma_run_from_concat(st: TokenizerState, a: Seq<char>, b: Seq<char>)
    ensures
        tokenizer_run_from(st, a + b) == tokenizer_run_from(tokenizer_run_from(st, a), b),
    decreases b.len(),
{
    if b.len() == 0 {
        assert(a + b =~= a);
    } else {
        assert((a + b).drop_last() =~= a + b.drop_last());
        assert((a + b).last() == b.last());
        lemma_run_from_concat(st, a, b.drop_last());
    }
}

/// A plain word: no quote and no space.
pub open spec fn is_plain_word(w: Seq<char>) -> bool {
    forall|i: int| 0 <= i < w.len() ==> w[i] != '\'' && w[i] != '"' && w[i] != ' '
}

/// Reading a plain word outside quotes adds it to the current word.
proof fn lemma_run_plain(st: TokenizerState, w: Seq<char>)
    requires
        is_plain_word(w),
        !st.in_single_quotes,
        !st.in_double_quotes,
    ensures
        tokenizer_run_from(st, w) == (TokenizerState { current: st.current + w, ..st }),
    decreases w.len(),
{
    if w.len() == 0 {
        assert(st.current + w =~= st.current);
    } else {
        lemma_run_plain(st, w.drop_last());
        assert(w.last() == w[w.len() - 1]);
        assert(st.current + w.drop_last() + seq![w.last()] =~= st.current + w);
        assert((st.current + w.drop_last()).push(w.last()) =~= st.current + w);
    }
}

/// Inside single quotes, everything but a single quote is added to the
/// current word, spaces and double quotes included.
proof fn lemma_run_single_quoted(st: TokenizerState, s: Seq<char>)
    requires
        forall|i: int| 0 <= i < s.len() ==> s[i] != '\'',
        st.in_single_quotes,
        !st.in_double_quotes,
    ensures
        tokenizer_run_from(st, s) == (TokenizerState { current: st.current + s, ..st }),
    decreases s.len(),
{
    if s.len() == 0 {
        assert(st.current + s =~= st.current);
    } else {
        lemma_run_single_quoted(st, s.drop_last());
        assert(s.last() == s[s.len() - 1]);
        assert((st.current + s.drop_last()).push(s.last()) =~= st.current + s);
    }
}

/// Outside double quotes a single quote only opens or closes single quoting
/// and is never part of a word, at the start of a word or inside it: a
/// plain word, a part in single quotes (which may hold spaces and double
/// quotes) and another plain word make one word, without the quotes.
pub proof fn lemma_tokenize_single_quoted(w: Seq<char>, s: Seq<char>, w2: Seq<char>)
    requires
        is_plain_word(w),
        is_plain_word(w2),
        forall|i: int| 0 <= i < s.len() ==> s[i] != '\'',
        (w + s + w2).len() > 0,
    ensures
        tokenize(w + seq!['\''] + s + seq!['\''] + w2) == seq![w + s + w2],
{
    let st0 = tokenizer_start();
    assert(w =~= Seq::<char>::empty() + w);
    lemma_run_concat(Seq::<char>::empty(), w);
    assert(tokenizer_run(Seq::<char>::empty()) == st0);
    lemma_run_plain(st0, w);
    let st1 = tokenizer_run(w);
    assert(st1 == TokenizerState { current: w, ..st0 }) by {
        assert(st0.current + w =~= w);
    }
    let q = seq!['\''];
    let rest = q + s + q + w2;
    assert(w + seq!['\''] + s + seq!['\''] + w2 =~= w + rest);
    lemma_run_concat(w, rest);
    assert(rest =~= q + (s + (q + w2)));
    lemma_run_from_concat(st1, q, s + (q + w2));
    assert(q.drop_last() =~= Seq::<char>::empty());
    assert(q.last() == '\'');
    assert(tokenizer_run_from(st1, q.drop_last()) == st1);
    let st2 = tokenizer_run_from(st1, q);
    assert(st2 == tokenizer_step(st1, '\''));
    assert(st2 == TokenizerState { in_single_quotes: true, ..st1 });
    lemma_run_from_concat(st2, s, q + w2);
    lemma_run_single_quoted(st2, s);
    let st3 = tokenizer_run_from(st2, s);
    assert(st3 == TokenizerState { current: w + s, ..st2 });
    lemma_run_from_concat(st3, q, w2);
    assert(tokenizer_run_from(st3, q.drop_last()) == st3);
    let st4 = tokenizer_run_from(st3, q);
    assert(st4 == tokenizer_step(st3, '\''));
    assert(st4 == TokenizerState { in_single_quotes: false, ..st3 });
    lemma_run_plain(st4, w2);
    let st5 = tokenizer_run_from(st4, w2);
    assert(st5.current == w + s + w2);
    assert(st5.tokens == Seq::<Seq<char>>::empty());
    assert(tokenizer_run(w + seq!['\''] + s + seq!['\''] + w2) == st5);
    assert(Seq::<Seq<char>>::empty().push(w + s + w2) =~= seq![w + s + w2]);
}

/// Splits a command line into words, honouring single and double quotes.
/// Every word it returns is non-empty.
pub fn tokenize_launch_command(launch_cmd: &str) -> (tokens: Vec<String>)
    ensures
        string_views(tokens@) == tokenize(launch_cmd@),
        forall|k: int| 0 <= k < tokens@.len() ==> tokens@[k]@.len() > 0,
{
    let cs = chars_of(launch_cmd);
    let mut words: Vec<Vec<char>> = Vec::new();
    let mut current: Vec<char> = Vec::new();
    let mut in_single_quotes = false;
    let mut in_double_quotes = false;
    let mut i: usize = 0;
    assert(cs@.take(0) =~= Seq::<char>::empty());
    assert(views_of(words@) =~= Seq::<Seq<char>>::empty());
    while i < cs.len()
        invariant
            i <= cs.len(),
            tokenizer_run(cs@.take(i as int)) == (TokenizerState {
                tokens: views_of(words@),
                current: current@,
                in_single_quotes,
                in_double_quotes,
            }),
            forall|k: int| 0 <= k < words@.len() ==> words@[k]@.len() > 0,
        decreases cs.len() - i,
    {
        let c = cs[i];
        assert(cs@.take(i + 1).drop_last() =~= cs@.take(i as int));
        if c == '\'' && !in_double_quotes {
            in_single_quotes = !in_single_quotes;
        } else if c == '"' && !in_single_quotes {
            in_double_quotes = !in_double_quotes;
        } else if c == ' ' && !in_single_quotes && !in_double_quotes {
            if current.len() > 0 {
                let word = current;
                let ghost before = views_of(words@);
                words.push(word);
                current = Vec::new();
                assert(views_of(words@) =~= before.push(word@));
            }
        } else {
            current.push(c);
        }
        i = i + 1;
    }
    assert(cs@.take(i as int) =~= cs@);
    if current.len() > 0 {
        words.push(current);
    }
    assert(views_of(words@) =~= tokenize(launch_cmd@));
    let mut tokens: Vec<String> = Vec::new();
    let mut k: usize = 0;
    while k < words.len()
        invariant
            k <= words.len(),
            string_views(tokens@) == views_of(words@).take(k as int),
            forall|m: int| 0 <= m < words@.len() ==> words@[m]@.len() > 0,
        decreases words.len() - k,
    {
        let t = string_from_chars(&words[k]);
        let ghost before = string_views(tokens@);
        tokens.push(t);
        assert(string_views(tokens@) =~= before.push(t@));
        assert(views_of(words@).take(k + 1) =~= views_of(words@).take(k as int).push(
            views_of(words@)[k as int],
        ));
        assert(string_views(tokens@) =~= views_of(words@).take(k + 1));
        k = k + 1;
    }
    assert(views_of(words@).take(k as int) =~= views_of(words@));
    assert forall|m: int| 0 <= m < tokens@.len() implies tokens@[m]@.len() > 0 by {
        assert(string_views(tokens@)[m] == tokens@[m]@);
        assert(views_of(words@)[m] == words@[m]@);
    }
    tokens
}

/// The part of a `KEY=value` word before its first `=`.
pub open spec fn assignment_key(t: Seq<char>) -> Seq<char> {
    split_on(t, '=')[0]
}

/// The part of a `KEY=value` word between its first and second `=` (what
/// follows a second `=` is dropped).
pub open spec fn assignment_value(t: Seq<char>) -> Seq<char> {
    split_on(t, '=')[1]
}

/// A word that sets an environment variable: it holds `=`, and what comes
/// before its first `=` is not blank.
pub open spec fn is_assignment(t: Seq<char>) -> bool {
    t.contains('=') && trim(assignment_key(t)).len() > 0
}

/// The `(key, value)` pairs of the assignment words among `tokens`, in order.
pub open spec fn assignments(tokens: Seq<Seq<char>>) -> Seq<(Seq<char>, Seq<char>)>
    decreases tokens.len(),
{
    if tokens.len() == 0 {
        Seq::empty()
    } else {
        let r = assignments(tokens.drop_last());
        if is_assignment(tokens.last()) {
            r.push((assignment_key(tokens.last()), assignment_value(tokens.last())))
        } else {
            r
        }
    }
}

/// The words of `tokens` that are not assignments, in order.
pub open spec fn other_words(tokens: Seq<Seq<char>>) -> Seq<Seq<char>>
    decreases tokens.len(),
{
    if tokens.len() == 0 {
        Seq::empty()
    } else {
        let r = other_words(tokens.drop_last());
        if is_assignment(tokens.last()) {
            r
        } else {
            r.push(tokens.last())
        }
    }
}

/// Taking the assignments out of a list of words loses none and makes none
/// up: each word is either an assignment or stays a word.
pub proof fn lemma_words_partition(tokens: Seq<Seq<char>>)
    ensures
        other_words(tokens).len() + assignments(tokens).len() == tokens.len(),
        forall|k: int| 0 <= k < other_words(tokens).len() ==> !is_assignment(#[trigger] other_words(tokens)[k]),
    decreases tokens.len(),
{
    if tokens.len() > 0 {
        lemma_words_partition(tokens.drop_last());
        let r = other_words(tokens.drop_last());
        if !is_assignment(tokens.last()) {
            assert forall|k: int| 0 <= k < r.push(tokens.last()).len() implies !is_assignment(
                #[trigger] r.push(tokens.last())[k],
            ) by {
                if k < r.len() {
                    assert(r.push(tokens.last())[k] == r[k]);
                }
            }
        }
    }
}

/// The views of a sequence of string pairs.
pub open spec fn pair_views(v: Seq<(String, String)>) -> Seq<(Seq<char>, Seq<char>)> {
    v.map_values(|p: (String, String)| (p.0@, p.1@))
}

/// A string with `=` in it splits into at least two pieces on `=`.
pub proof fn lemma_split_on_contains(s: Seq<char>, sep: char)
    requires
        s.contains(sep),
    ensures
        split_on(s, sep).len() >= 2,
    decreases s.len(),
{
    lemma_split_on_nonempty(s.drop_last(), sep);
    if s.last() != sep {
        let k = choose|k: int| 0 <= k < s.len() && s[k] == sep;
        assert(s.drop_last()[k] == sep);
        lemma_split_on_contains(s.drop_last(), sep);
    }
}

/// Takes the `KEY=value` words out of `tokens` and returns them as
/// `(KEY, value)` pairs, in order; the other words stay, in order. A word
/// counts only where its key is not blank. A key may come more than once;
/// set in order, the last value wins.
pub fn extract_env_vars_from_tokens(tokens: &mut Vec<String>) -> (env_vars: Vec<(String, String)>)
    ensures
        string_views(final(tokens)@) == other_words(string_views(old(tokens)@)),
        pair_views(env_vars@) == assignments(string_views(old(tokens)@)),
        forall|k: int| 0 <= k < env_vars@.len() ==> trim(#[trigger] env_vars@[k].0@).len() > 0,
{
    let ghost orig = string_views(tokens@);
    let ghost mut j: int = 0;
    let mut env_vars: Vec<(String, String)> = Vec::new();
    let mut i: usize = 0;
    assert(orig.skip(0) =~= orig);
    assert(other_words(orig.take(0)) =~= Seq::<Seq<char>>::empty());
    assert(string_views(tokens@) =~= other_words(orig.take(0)) + orig.skip(0));
    while i < tokens.len()
        invariant
            0 <= j <= orig.len(),
            string_views(tokens@) == other_words(orig.take(j)) + orig.skip(j),
            i == other_words(orig.take(j)).len(),
            pair_views(env_vars@) == assignments(orig.take(j)),
            forall|k: int| 0 <= k < env_vars@.len() ==> trim(#[trigger] env_vars@[k].0@).len() > 0,
        decreases tokens.len() - i,
    {
        let ghost before = string_views(tokens@);
        assert(before[i as int] == orig[j]);
        assert(orig.take(j + 1).drop_last() =~= orig.take(j));
        assert(orig.take(j + 1).last() == orig[j]);
        let t = chars_of(tokens[i].as_str());
        let mut assignment = false;
        if contains_char(&t, '=') {
            proof {
                lemma_split_on_contains(t@, '=');
            }
            let parts = split_chars(&t, '=');
            assert(parts@[0]@ == views_of(parts@)[0]);
            assert(parts@[1]@ == views_of(parts@)[1]);
            if !is_blank(&parts[0]) {
                let key = string_from_chars(&parts[0]);
                let value = string_from_chars(&parts[1]);
                let ghost pairs_before = pair_views(env_vars@);
                env_vars.push((key, value));
                assert(pair_views(env_vars@) =~= pairs_before.push((key@, value@)));
                assert(t@ == orig[j]);
                assert(is_assignment(orig[j]));
                tokens.remove(i);
                assert(string_views(tokens@) =~= before.remove(i as int));
                assignment = true;
            }
        }
        proof {
            if assignment {
                assert(string_views(tokens@) =~= other_words(orig.take(j + 1)) + orig.skip(j + 1));
            } else {
                assert(!is_assignment(orig[j]));
                assert(other_words(orig.take(j + 1)) == other_words(orig.take(j)).push(orig[j]));
                assert(string_views(tokens@) =~= other_words(orig.take(j + 1)) + orig.skip(j + 1));
            }
            j = j + 1;
        }
        if !assignment {
            i = i + 1;
        }
    }
    proof {
        if j < orig.len() {
            assert(string_views(tokens@).len() > i);
        }
        assert(orig.take(j) =~= orig);
        assert(orig.skip(j) =~= Seq::<Seq<char>>::empty());
        assert(string_views(tokens@) =~= other_words(orig));
    }
    env_vars
}

/// The game's own command line: the program in double quotes, then each
/// argument after a space.
pub open spec fn command_line(program: Seq<char>, args: Seq<Seq<char>>) -> Seq<char>
    decreases args.len(),
{
    if args.len() == 0 {
        seq!['"'] + program + seq!['"']
    } else {
        command_line(program, args.drop_last()) + seq![' '] + args.last()
    }
}

/// The value of `name` in an environment given as `(name, value)` entries: the
/// first entry with that name.
pub open spec fn env_lookup(env: Seq<(Seq<char>, Seq<char>)>, name: Seq<char>) -> Option<Seq<char>>
    decreases env.len(),
{
    if env.len() == 0 {
        None
    } else if env[0].0 == name {
        Some(env[0].1)
    } else {
        env_lookup(env.drop_first(), name)
    }
}

/// What filling a launch format string comes to.
pub enum Expansion {
    /// The filled string, and whether `{}` (the game's command) was filled in.
    Filled(Seq<char>, bool),
    /// `{NAME}` named an environment variable that is not set.
    MissingVar(Seq<char>),
    /// The filling was still going after the number of substitutions allowed.
    Unfinished,
}

/// `s` with its part from `lo` up to and including `hi` replaced by `value`.
pub open spec fn splice(s: Seq<char>, lo: int, hi: int, value: Seq<char>) -> Seq<char> {
    s.subrange(0, lo) + value + s.subrange(hi + 1, s.len() as int)
}

/// How many substitutions filling a launch format string may make. A value
/// filled in may itself hold `{…}`, which is filled in turn, so the filling
/// need not end; this bound is never reached in practice.
pub const MAX_SUBSTITUTIONS: u64 = 0xffff_ffff_ffff_ffffu64;

/// Fills a launch format string: while `s` holds a `{` followed later by a
/// `}`, the first such `{…}` is replaced, `{}` by the game's command line
/// `base`, `{NAME}` by the value of the environment variable `NAME`; then the
/// search starts again from the beginning, so that what was filled in is
/// filled in turn. An unset variable stops the filling; so does running out
/// of the `steps` substitutions allowed.
pub open spec fn expand(
    s: Seq<char>,
    base: Seq<char>,
    env: Seq<(Seq<char>, Seq<char>)>,
    replaced: bool,
    steps: nat,
) -> Expansion
    decreases steps,
{
    match index_from(s, '{', 0) {
        None => Expansion::Filled(s, replaced),
        Some(start) => match index_from(s, '}', start) {
            None => Expansion::Filled(s, replaced),
            Some(end) => {
                let ident = s.subrange(start + 1, end);
                let value = if ident.len() == 0 {
                    Some(base)
                } else {
                    env_lookup(env, ident)
                };
                match value {
                    None => Expansion::MissingVar(ident),
                    Some(v) => if steps == 0 {
                        Expansion::Unfinished
                    } else {
                        expand(splice(s, start, end, v), base, env, replaced || ident.len() == 0, (steps - 1) as nat)
                    },
                }
            },
        },
    }
}

/// What went wrong when building a launch command.
#[derive(Debug)]
pub enum LaunchError {
    /// The format string names an environment variable that is not set.
    MissingEnvVar(String),
    /// The format string has no `{}` for the game's command.
    MissingBaseToken,
    /// The filling did not end within `MAX_SUBSTITUTIONS` substitutions.
    TooManySubstitutions,
    /// The game's command has no working directory to run the launch command in.
    InvalidWorkingDirectory,
}

/// The launch command built from a launch profile: its words (the program,
/// then its arguments) and the environment variables it sets.
pub struct LaunchPlan {
    pub words: Vec<String>,
    pub env_vars: Vec<(String, String)>,
}

/// The game's command line: the program in double quotes, then each argument
/// after a space.
pub fn command_line_string(program: &str, args: &Vec<String>) -> (res: Vec<char>)
    ensures
        res@ == command_line(program@, string_views(args@)),
{
    let mut res: Vec<char> = Vec::new();
    res.push('"');
    let p = chars_of(program);
    push_all(&mut res, &p);
    res.push('"');
    let mut k: usize = 0;
    assert(string_views(args@).take(0) =~= Seq::<Seq<char>>::empty());
    assert(res@ =~= seq!['"'] + program@ + seq!['"']);
    while k < args.len()
        invariant
            k <= args.len(),
            res@ == command_line(program@, string_views(args@).take(k as int)),
        decreases args.len() - k,
    {
        res.push(' ');
        let a = chars_of(args[k].as_str());
        push_all(&mut res, &a);
        assert(string_views(args@).take(k + 1).drop_last() =~= string_views(args@).take(k as int));
        assert(res@ =~= command_line(program@, string_views(args@).take(k + 1)));
        k = k + 1;
    }
    assert(string_views(args@).take(k as int) =~= string_views(args@));
    res
}

fn lookup_env(env: &Vec<(String, String)>, name: &Vec<char>) -> (res: Option<Vec<char>>)
    ensures
        match env_lookup(pair_views(env@), name@) {
            Some(v) => res is Some && res.unwrap()@ == v,
            None => res is None,
        },
{
    let mut k: usize = 0;
    assert(pair_views(env@).skip(0) =~= pair_views(env@));
    while k < env.len()
        invariant
            k <= env.len(),
            env_lookup(pair_views(env@), name@) == env_lookup(pair_views(env@).skip(k as int), name@),
        decreases env.len() - k,
    {
        let key = chars_of(env[k].0.as_str());
        assert(pair_views(env@).skip(k as int)[0] == (env@[k as int].0@, env@[k as int].1@));
        assert(pair_views(env@).skip(k as int).drop_first() =~= pair_views(env@).skip(k + 1));
        if chars_equal(&key, name) {
            return Some(chars_of(env[k].1.as_str()));
        }
        k = k + 1;
    }
    None
}

fn chars_equal(a: &Vec<char>, b: &Vec<char>) -> (res: bool)
    ensures
        res == (a@ == b@),
{
    if a.len() != b.len() {
        return false;
    }
    let mut k: usize = 0;
    while k < a.len()
        invariant
            k <= a.len() == b.len(),
            forall|m: int| 0 <= m < k ==> a@[m] == b@[m],
        decreases a.len() - k,
    {
        if a[k] != b[k] {
            return false;
        }
        k = k + 1;
    }
    assert(a@ =~= b@);
    true
}

/// Fills the launch format string `launch_fmt` (see `expand`) with the game's
/// command `program` and `args` and the process environment `env`, splits the
/// result into words and takes out the `KEY=value` words as environment
/// variables. Fails when a named variable is not set, when there is no `{}`,
/// or when the filling does not end within `MAX_SUBSTITUTIONS` substitutions.
pub fn gen_launch_plan(
    program: &str,
    args: &Vec<String>,
    launch_fmt: &str,
    env: &Vec<(String, String)>,
) -> (res: Result<LaunchPlan, LaunchError>)
    ensures
        match expand(
            launch_fmt@,
            command_line(program@, string_views(args@)),
            pair_views(env@),
            false,
            MAX_SUBSTITUTIONS as nat,
        ) {
            Expansion::Filled(s, true) => res matches Ok(plan) && string_views(plan.words@)
                == other_words(tokenize(s)) && pair_views(plan.env_vars@) == assignments(
                tokenize(s),
            ),
            Expansion::Filled(_, false) => res matches Err(LaunchError::MissingBaseToken),
            Expansion::MissingVar(name) => res matches Err(LaunchError::MissingEnvVar(n)) && n@
                == name,
            Expansion::Unfinished => res matches Err(LaunchError::TooManySubstitutions),
        },
{
    let base = command_line_string(program, args);
    let ghost goal = expand(launch_fmt@, base@, pair_views(env@), false, MAX_SUBSTITUTIONS as nat);
    let mut s = chars_of(launch_fmt);
    let mut replaced = false;
    let mut steps: u64 = MAX_SUBSTITUTIONS;
    loop
        invariant
            base@ == command_line(program@, string_views(args@)),
            goal == expand(launch_fmt@, base@, pair_views(env@), false, MAX_SUBSTITUTIONS as nat),
            goal == expand(s@, base@, pair_views(env@), replaced, steps as nat),
        ensures
            goal == Expansion::Filled(s@, replaced),
        decreases steps,
    {
        let start = match find_char(&s, '{', 0) {
            Some(k) => k,
            None => {
                proof {
                    lemma_index_from_scan(s@, '{', 0, None);
                }
                break;
            },
        };
        proof {
            lemma_index_from_scan(s@, '{', 0, Some(start as int));
        }
        let end = match find_char(&s, '}', start) {
            Some(k) => k,
            None => {
                proof {
                    lemma_index_from_scan(s@, '}', start as int, None);
                }
                break;
            },
        };
        proof {
            lemma_index_from_scan(s@, '}', start as int, Some(end as int));
        }
        let ident = slice_chars(&s, start + 1, end);
        let value = if ident.len() == 0 {
            replaced = true;
            slice_chars(&base, 0, base.len())
        } else {
            match lookup_env(env, &ident) {
                Some(v) => v,
                None => {
                    let name = string_from_chars(&ident);
                    return Err(LaunchError::MissingEnvVar(name));
                },
            }
        };
        assert(base@.subrange(0, base@.len() as int) =~= base@);
        if steps == 0 {
            return Err(LaunchError::TooManySubstitutions);
        }
        steps = steps - 1;
        let mut next = slice_chars(&s, 0, start);
        push_all(&mut next, &value);
        let rest = slice_chars(&s, end + 1, s.len());
        push_all(&mut next, &rest);
        assert(next@ =~= splice(s@, start as int, end as int, value@));
        s = next;
    }
    if !replaced {
        return Err(LaunchError::MissingBaseToken);
    }
    let filled = string_from_chars(&s);
    let mut words = tokenize_launch_command(filled.as_str());
    let env_vars = extract_env_vars_from_tokens(&mut words);
    Ok(LaunchPlan { words, env_vars })
}

/// One line per environment variable, each after a newline and a tab, as
/// `KEY=value`.
pub open spec fn env_lines(envs: Seq<(Seq<char>, Seq<char>)>) -> Seq<char>
    decreases envs.len(),
{
    if envs.len() == 0 {
        Seq::empty()
    } else {
        env_lines(envs.drop_last()) + seq!['\n', '\t'] + envs.last().0 + seq!['='] + envs.last().1
    }
}

/// The variables a command sets, as `(name, value)` views; every entry sets
/// a value.
pub open spec fn set_env_views(envs: Seq<(String, Option<String>)>) -> Seq<(Seq<char>, Seq<char>)> {
    envs.map_values(|e: (String, Option<String>)| (e.0@, e.1.unwrap()@))
}

/// Where and with which environment the launch command runs: in the game
/// command's working directory `base_dir` (an error where it has none), with
/// the game command's variables `base_envs` first and then the plan's
/// `KEY=value` variables, so that, set in order, the plan's win. Where there
/// is a working directory, every variable of the game command sets a value.
pub fn launch_environment(
    base_dir: Option<String>,
    base_envs: &Vec<(String, Option<String>)>,
    plan_envs: &Vec<(String, String)>,
) -> (res: Result<(String, Vec<(String, String)>), LaunchError>)
    requires
        base_dir is Some ==> forall|k: int| 0 <= k < base_envs@.len() ==> (#[trigger] base_envs@[k]).1 is Some,
    ensures
        match base_dir {
            None => res matches Err(LaunchError::InvalidWorkingDirectory),
            Some(d) => res matches Ok((dir, envs)) && dir@ == d@ && pair_views(envs@) == set_env_views(
                base_envs@,
            ) + pair_views(plan_envs@),
        },
{
    let dir = match base_dir {
        Some(d) => d,
        None => {
            return Err(LaunchError::InvalidWorkingDirectory);
        },
    };
    let mut envs: Vec<(String, String)> = Vec::new();
    let mut k: usize = 0;
    while k < base_envs.len()
        invariant
            k <= base_envs.len(),
            forall|m: int| 0 <= m < base_envs@.len() ==> (#[trigger] base_envs@[m]).1 is Some,
            pair_views(envs@) == set_env_views(base_envs@.take(k as int)),
        decreases base_envs.len() - k,
    {
        let name = base_envs[k].0.clone();
        let value = match &base_envs[k].1 {
            Some(v) => v.clone(),
            None => String::new(),
        };
        assert(name@ == base_envs@[k as int].0@);
        assert(value@ == base_envs@[k as int].1.unwrap()@);
        let ghost before = envs@;
        envs.push((name, value));
        assert(pair_views(envs@) =~= pair_views(before).push((base_envs@[k as int].0@, base_envs@[k as int].1.unwrap()@)));
        assert(base_envs@.take(k + 1) =~= base_envs@.take(k as int).push(base_envs@[k as int]));
        assert(pair_views(envs@) =~= set_env_views(base_envs@.take(k + 1)));
        k = k + 1;
    }
    assert(base_envs@.take(k as int) =~= base_envs@);
    let ghost mid = pair_views(envs@);
    let mut j: usize = 0;
    while j < plan_envs.len()
        invariant
            j <= plan_envs.len(),
            mid == set_env_views(base_envs@),
            pair_views(envs@) == mid + pair_views(plan_envs@.take(j as int)),
        decreases plan_envs.len() - j,
    {
        let name = plan_envs[j].0.clone();
        let value = plan_envs[j].1.clone();
        let ghost before = envs@;
        envs.push((name, value));
        assert(pair_views(envs@) =~= pair_views(before).push((plan_envs@[j as int].0@, plan_envs@[j as int].1@)));
        assert(plan_envs@.take(j + 1) =~= plan_envs@.take(j as int).push(plan_envs@[j as int]));
        assert(pair_views(envs@) =~= mid + pair_views(plan_envs@.take(j + 1)));
        j = j + 1;
    }
    assert(plan_envs@.take(j as int) =~= plan_envs@);
    Ok((dir, envs))
}

/// A command as shown in the log: its command line, then, when `with_env`
/// holds, the environment variables it sets, one per line.
pub fn get_launch_cmd_dbg_str(
    program: &str,
    args: &Vec<String>,
    envs: &Vec<(String, String)>,
    with_env: bool,
) -> (res: String)
    ensures
        res@ == command_line(program@, string_views(args@)) + if with_env {
            env_lines(pair_views(envs@))
        } else {
            Seq::empty()
        },
{
    let mut out = command_line_string(program, args);
    let ghost line = out@;
    if with_env {
        let mut k: usize = 0;
        assert(pair_views(envs@).take(0) =~= Seq::<(Seq<char>, Seq<char>)>::empty());
        assert(out@ =~= line + env_lines(pair_views(envs@).take(0)));
        while k < envs.len()
            invariant
                k <= envs.len(),
                out@ == line + env_lines(pair_views(envs@).take(k as int)),
            decreases envs.len() - k,
        {
            out.push('\n');
            out.push('\t');
            let key = chars_of(envs[k].0.as_str());
            push_all(&mut out, &key);
            out.push('=');
            let value = chars_of(envs[k].1.as_str());
            push_all(&mut out, &value);
            assert(pair_views(envs@).take(k + 1).drop_last() =~= pair_views(envs@).take(k as int));
            assert(out@ =~= line + env_lines(pair_views(envs@).take(k + 1)));
            k = k + 1;
        }
        assert(pair_views(envs@).take(k as int) =~= pair_views(envs@));
    } else {
        assert(out@ =~= line + Seq::<char>::empty());
    }
    string_from_chars(&out)
}

/// `path` in double quotes, followed by a space and `{}`: the launch format
/// that runs the game through the program at `path`.
pub open spec fn wrapper_command(path: Seq<char>) -> Seq<char> {
    seq!['"'] + path + seq!['"', ' ', '{', '}']
}

/// The launch format that runs the game through the program at `path`
/// (a Wine install): `"path" {}`.
pub fn wine_launch_command(path: &str) -> (res: String)
    ensures
        res@ == wrapper_command(path@),
{
    let mut out: Vec<char> = Vec::new();
    out.push('"');
    let p = chars_of(path);
    push_all(&mut out, &p);
    out.push('"');
    out.push(' ');
    out.push('{');
    out.push('}');
    assert(out@ =~= wrapper_command(path@));
    string_from_chars(&out)
}

/// The name of the launch profile for the Wine found on the search path: `Wine (path)`.
pub fn wine_profile_name(path: &str) -> (res: String)
    ensures
        res@ == seq!['W', 'i', 'n', 'e', ' ', '('] + path@ + seq![')'],
{
    let mut out: Vec<char> = Vec::new();
    out.push('W');
    out.push('i');
    out.push('n');
    out.push('e');
    out.push(' ');
    out.push('(');
    let p = chars_of(path);
    push_all(&mut out, &p);
    out.push(')');
    assert(out@ =~= seq!['W', 'i', 'n', 'e', ' ', '('] + path@ + seq![')']);
    string_from_chars(&out)
}

/// The variable that tells Proton where the Steam client is installed.
pub open spec fn steam_client_var() -> Seq<char> {
    seq![
        'S', 'T', 'E', 'A', 'M', '_', 'C', 'O', 'M', 'P', 'A', 'T', '_', 'C', 'L', 'I', 'E', 'N',
        'T', '_', 'I', 'N', 'S', 'T', 'A', 'L', 'L', '_', 'P', 'A', 'T', 'H',
    ]
}

fn push_steam_client_var(out: &mut Vec<char>)
    ensures
        final(out)@ == old(out)@ + steam_client_var(),
{
    let name = chars_of("STEAM_COMPAT_CLIENT_INSTALL_PATH");
    proof {
        reveal_strlit("STEAM_COMPAT_CLIENT_INSTALL_PATH");
    }
    push_all(out, &name);
    assert(name@ =~= steam_client_var());
}

/// The launch format that runs the game through a Proton install:
/// `STEAM_COMPAT_CLIENT_INSTALL_PATH="client" "proton" run {}`.
pub fn proton_launch_command(client_path: &str, proton_path: &str) -> (res: String)
    ensures
        res@ == steam_client_var() + seq!['=', '"'] + client_path@ + seq!['"', ' ', '"']
            + proton_path@ + seq!['"', ' ', 'r', 'u', 'n', ' ', '{', '}'],
{
    let mut out: Vec<char> = Vec::new();
    push_steam_client_var(&mut out);
    out.push('=');
    out.push('"');
    let c = chars_of(client_path);
    push_all(&mut out, &c);
    out.push('"');
    out.push(' ');
    out.push('"');
    let p = chars_of(proton_path);
    push_all(&mut out, &p);
    out.push('"');
    out.push(' ');
    out.push('r');
    out.push('u');
    out.push('n');
    out.push(' ');
    out.push('{');
    out.push('}');
    assert(out@ =~= steam_client_var() + seq!['=', '"'] + client_path@ + seq!['"', ' ', '"']
        + proton_path@ + seq!['"', ' ', 'r', 'u', 'n', ' ', '{', '}']);
    string_from_chars(&out)
}

} // verus!
