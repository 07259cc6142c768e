//! Commands as a POSIX shell splits them into words: quoting on the way out, and
//! the law that what was quoted is split into the same words again.

use crate::text::{chars_of, join_texts, joined, views};
use vstd::prelude::*;

verus! {

broadcast use vstd::string::group_string_axioms;

/// The characters that need no quoting: ASCII letters and digits, and ten
/// punctuation marks.
pub open spec fn is_shell_safe(c: char) -> bool {
    ||| 'a' <= c <= 'z'
    ||| 'A' <= c <= 'Z'
    ||| '0' <= c <= '9'
    ||| c == '@'
    ||| c == '%'
    ||| c == '_'
    ||| c == '+'
    ||| c == '='
    ||| c == ':'
    ||| c == ','
    ||| c == '.'
    ||| c == '/'
    ||| c == '-'
}

/// All of `s` are safe.
pub open spec fn all_safe(s: Seq<char>) -> bool {
    forall|i: int| 0 <= i < s.len() ==> is_shell_safe(#[trigger] s[i])
}

/// How a character is written between single quotes: a single quote closes the
/// quotes, stands escaped, and opens them again.
pub open spec fn quoted_char(c: char) -> Seq<char> {
    if c == '\'' {
        seq!['\'', '\\', '\'', '\'']
    } else {
        seq![c]
    }
}

/// How a text is written between single quotes.
pub open spec fn quoted_body(s: Seq<char>) -> Seq<char>
    decreases s.len(),
{
    if s.len() == 0 {
        Seq::empty()
    } else {
        quoted_char(s[0]) + quoted_body(s.drop_first())
    }
}

/// A word as it is written in a shell command: as it is where all of it is safe,
/// else between single quotes.
pub open spec fn quoted(s: Seq<char>) -> Seq<char> {
    if all_safe(s) {
        s
    } else {
        seq!['\''] + quoted_body(s) + seq!['\'']
    }
}

/// Words as they are written in a shell command, one blank between each two.
pub open spec fn quoted_words(words: Seq<Seq<char>>) -> Seq<char> {
    joined(words.map_values(|w: Seq<char>| quoted(w)), seq![' '])
}

/// The command that changes to `cwd` and then runs `argv`.
pub open spec fn command_in(argv: Seq<Seq<char>>, cwd: Seq<char>) -> Seq<char> {
    "cd "@ + quoted(cwd) + " && "@ + quoted_words(argv)
}

fn is_safe(c: char) -> (r: bool)
    ensures
        r == is_shell_safe(c),
{
    ('a' <= c && c <= 'z') || ('A' <= c && c <= 'Z') || ('0' <= c && c <= '9') || c == '@' || c
        == '%' || c == '_' || c == '+' || c == '=' || c == ':' || c == ',' || c == '.' || c == '/'
        || c == '-'
}

/// Writes `s` so that a shell reads it as one word, unless it is empty.
pub fn shell_quote(s: &str) -> (r: String)
    ensures
        r@ == quoted(s@),
{
    let cs = chars_of(s);
    let mut i: usize = 0;
    while i < cs.len() && is_safe(cs[i])
        invariant
            i <= cs@.len(),
            cs@ == s@,
            forall|j: int| 0 <= j < i ==> is_shell_safe(#[trigger] s@[j]),
        decreases cs@.len() - i,
    {
        i += 1;
    }
    if i == cs.len() {
        return s.to_string();
    }
    assert(!is_shell_safe(s@[i as int]));
    let mut out = String::new();
    out.push('\'');
    let mut k: usize = 0;
    assert(cs@.skip(0) =~= s@);
    while k < cs.len()
        invariant
            k <= cs@.len(),
            cs@ == s@,
            out@ + quoted_body(cs@.skip(k as int)) == seq!['\''] + quoted_body(s@),
        decreases cs@.len() - k,
    {
        let ghost before = out@;
        let ghost rest = cs@.skip(k as int);
        if cs[k] == '\'' {
            out.push('\'');
            out.push('\\');
            out.push('\'');
            out.push('\'');
        } else {
            out.push(cs[k]);
        }
        assert(rest.drop_first() =~= cs@.skip(k + 1));
        assert(out@ =~= before + quoted_char(rest[0]));
        assert(out@ + quoted_body(cs@.skip(k + 1)) =~= before + quoted_body(rest));
        k += 1;
    }
    assert(out@ =~= seq!['\''] + quoted_body(s@));
    out.push('\'');
    assert(out@ =~= quoted(s@));
    out
}

/// Writes `argv` so that a shell reads it as these words, except for empty ones.
pub fn shell_words(argv: &[String]) -> (r: String)
    ensures
        r@ == quoted_words(views(argv@)),
{
    let mut parts: Vec<String> = Vec::new();
    let mut i: usize = 0;
    while i < argv.len()
        invariant
            i <= argv@.len(),
            parts@.len() == i,
            forall|j: int| 0 <= j < i ==> (#[trigger] parts@[j])@ == quoted(argv@[j]@),
        decreases argv@.len() - i,
    {
        parts.push(shell_quote(argv[i].as_str()));
        i += 1;
    }
    proof {
        reveal_strlit(" ");
    }
    assert(" "@ =~= seq![' ']);
    assert(views(parts@) =~= views(argv@).map_values(|w: Seq<char>| quoted(w)));
    join_texts(parts.as_slice(), " ")
}

/// The command line that changes to `cwd` before it runs `argv`.
pub fn resume_shell_command(argv: &[String], cwd: &str) -> (r: String)
    ensures
        r@ == command_in(views(argv@), cwd@),
{
    let mut out = "cd ".to_string();
    let place = shell_quote(cwd);
    out.append(place.as_str());
    out.append(" && ");
    let words = shell_words(argv);
    out.append(words.as_str());
    out
}

// ---------------------------------------------------------------------------
// What a shell reads
// ---------------------------------------------------------------------------

/// What a shell finds in a command line: words, and the operator `&&`.
pub enum ShellToken {
    Word(Seq<char>),
    AndIf,
}

/// The characters with a meaning of their own outside quotes.
pub open spec fn is_shell_special(c: char) -> bool {
    ||| c == '|'
    ||| c == '&'
    ||| c == ';'
    ||| c == '<'
    ||| c == '>'
    ||| c == '('
    ||| c == ')'
    ||| c == '$'
    ||| c == '`'
    ||| c == '\\'
    ||| c == '"'
    ||| c == '\''
    ||| c == ' '
    ||| c == '\t'
    ||| c == '\n'
    ||| c == '*'
    ||| c == '?'
    ||| c == '['
    ||| c == ']'
    ||| c == '#'
    ||| c == '~'
    ||| c == '!'
    ||| c == '{'
    ||| c == '}'
    ||| c == '^'
}

/// The word that is being read, with `more` at its end.
pub open spec fn longer(word: Option<Seq<char>>, more: Seq<char>) -> Option<Seq<char>> {
    match word {
        Some(w) => Some(w + more),
        None => Some(more),
    }
}

/// The word that was being read, as a token.
pub open spec fn ended(word: Option<Seq<char>>) -> Seq<ShellToken> {
    match word {
        Some(w) => seq![ShellToken::Word(w)],
        None => Seq::empty(),
    }
}

/// `first` before what was read, where it was read.
pub open spec fn before(first: Seq<ShellToken>, read: Option<Seq<ShellToken>>) -> Option<
    Seq<ShellToken>,
> {
    match read {
        Some(tokens) => Some(first + tokens),
        None => None,
    }
}

/// How a shell reads `s`, inside single quotes or outside, in the middle of
/// `word` or between words. Blanks end a word, single quotes keep everything up
/// to the next one, a backslash keeps the character after it, `&&` is an
/// operator. Nothing is read where a quote stays open or where another special
/// character stands unquoted.
pub open spec fn shell_reading(s: Seq<char>, inside: bool, word: Option<Seq<char>>) -> Option<
    Seq<ShellToken>,
>
    decreases s.len(),
{
    if s.len() == 0 {
        if inside {
            None
        } else {
            Some(ended(word))
        }
    } else {
        let c = s[0];
        let rest = s.drop_first();
        if inside {
            if c == '\'' {
                shell_reading(rest, false, word)
            } else {
                shell_reading(rest, true, longer(word, seq![c]))
            }
        } else if c == ' ' {
            before(ended(word), shell_reading(rest, false, None))
        } else if c == '\'' {
            shell_reading(rest, true, longer(word, Seq::empty()))
        } else if c == '\\' {
            if rest.len() == 0 || rest[0] == '\n' {
                None
            } else {
                shell_reading(rest.drop_first(), false, longer(word, seq![rest[0]]))
            }
        } else if c == '&' {
            if rest.len() == 0 || rest[0] != '&' {
                None
            } else {
                before(
                    ended(word).push(ShellToken::AndIf),
                    shell_reading(rest.drop_first(), false, None),
                )
            }
        } else if is_shell_special(c) {
            None
        } else {
            shell_reading(rest, false, longer(word, seq![c]))
        }
    }
}

/// Words as tokens.
pub open spec fn word_tokens(words: Seq<Seq<char>>) -> Seq<ShellToken> {
    words.map_values(|w: Seq<char>| ShellToken::Word(w))
}

/// No word is empty.
pub open spec fn none_empty(words: Seq<Seq<char>>) -> bool {
    forall|i: int| 0 <= i < words.len() ==> (#[trigger] words[i]).len() > 0
}

/// Safe characters outside quotes go into the word that is being read.
proof fn lemma_read_safe(w: Seq<char>, rest: Seq<char>, word: Option<Seq<char>>)
    requires
        all_safe(w),
        w.len() > 0,
    ensures
        shell_reading(w + rest, false, word) == shell_reading(rest, false, longer(word, w)),
    decreases w.len(),
{
    let s = w + rest;
    let tail = w.drop_first();
    assert(is_shell_safe(w[0]));
    assert(s.drop_first() =~= tail + rest);
    assert(s[0] == w[0]);
    let next = longer(word, seq![w[0]]);
    assert(shell_reading(s, false, word) == shell_reading(tail + rest, false, next));
    if tail.len() == 0 {
        assert(tail + rest =~= rest);
        assert(w =~= seq![w[0]]);
    } else {
        assert forall|i: int| 0 <= i < tail.len() implies is_shell_safe(#[trigger] tail[i]) by {
            assert(tail[i] == w[i + 1]);
        }
        lemma_read_safe(tail, rest, next);
        assert(longer(next, tail)->0 =~= longer(word, w)->0);
    }
}

/// What was written between single quotes is read back up to the closing quote.
proof fn lemma_read_body(s: Seq<char>, rest: Seq<char>, word: Seq<char>)
    ensures
        shell_reading(quoted_body(s) + seq!['\''] + rest, true, Some(word)) == shell_reading(
            rest,
            false,
            Some(word + s),
        ),
    decreases s.len(),
{
    let whole = quoted_body(s) + seq!['\''] + rest;
    if s.len() == 0 {
        assert(whole[0] == '\'');
        assert(whole.drop_first() =~= rest);
        assert(word + s =~= word);
    } else {
        let tail = s.drop_first();
        let after = quoted_body(tail) + seq!['\''] + rest;
        assert(whole =~= quoted_char(s[0]) + after);
        let next = word + seq![s[0]];
        if s[0] == '\'' {
            let w1 = whole.drop_first();
            let w2 = w1.drop_first().drop_first();
            let w3 = w2.drop_first();
            assert(w3 =~= after);
            assert(shell_reading(whole, true, Some(word)) == shell_reading(w1, false, Some(word)));
            assert(w1[0] == '\\' && w1.drop_first()[0] == '\'');
            assert(shell_reading(w1, false, Some(word)) == shell_reading(w2, false, Some(next)));
            assert(w2[0] == '\'');
            assert(next + Seq::<char>::empty() =~= next);
            assert(shell_reading(w2, false, Some(next)) == shell_reading(w3, true, Some(next)));
        } else {
            assert(whole.drop_first() =~= after);
        }
        lemma_read_body(tail, rest, next);
        assert(next + tail =~= word + s);
    }
}

/// A quoted word that is not empty is read as that word.
proof fn lemma_read_word(w: Seq<char>, rest: Seq<char>)
    requires
        w.len() > 0,
    ensures
        shell_reading(quoted(w) + rest, false, None) == shell_reading(rest, false, Some(w)),
{
    if all_safe(w) {
        lemma_read_safe(w, rest, None);
    } else {
        let s = quoted(w) + rest;
        let empty = Seq::<char>::empty();
        assert(s[0] == '\'');
        assert(s.drop_first() =~= quoted_body(w) + seq!['\''] + rest);
        lemma_read_body(w, rest, empty);
        assert(empty + w =~= w);
    }
}

/// The first of the parts may be split off from the front too.
proof fn lemma_joined_front(parts: Seq<Seq<char>>, sep: Seq<char>)
    requires
        parts.len() > 1,
    ensures
        joined(parts, sep) == parts[0] + sep + joined(parts.drop_first(), sep),
    decreases parts.len(),
{
    let tail = parts.drop_first();
    if parts.len() == 2 {
        assert(joined(parts.drop_last(), sep) == parts[0]);
        assert(joined(tail, sep) == parts[1]);
    } else {
        lemma_joined_front(parts.drop_last(), sep);
        assert(parts.drop_last().drop_first() =~= tail.drop_last());
        assert(joined(parts, sep) =~= parts[0] + sep + joined(tail, sep));
    }
}

/// A shell reads the words that `shell_words` wrote back as the same words, as
/// long as none of them is empty.
pub proof fn law_words_read_back(words: Seq<Seq<char>>)
    requires
        none_empty(words),
    ensures
        shell_reading(quoted_words(words), false, None) == Some(word_tokens(words)),
    decreases words.len(),
{
    let written = words.map_values(|w: Seq<char>| quoted(w));
    let blank = seq![' '];
    if words.len() == 0 {
        assert(word_tokens(words) =~= Seq::empty());
    } else if words.len() == 1 {
        let end = Seq::<char>::empty();
        assert(quoted_words(words) =~= quoted(words[0]) + end);
        lemma_read_word(words[0], end);
        assert(word_tokens(words) =~= seq![ShellToken::Word(words[0])]);
    } else {
        let tail = words.drop_first();
        lemma_joined_front(written, blank);
        assert(written.drop_first() =~= tail.map_values(|w: Seq<char>| quoted(w)));
        let rest = blank + quoted_words(tail);
        assert(quoted_words(words) =~= quoted(words[0]) + rest);
        lemma_read_word(words[0], rest);
        assert(rest.drop_first() =~= quoted_words(tail));
        assert forall|i: int| 0 <= i < tail.len() implies (#[trigger] tail[i]).len() > 0 by {
            assert(tail[i] == words[i + 1]);
        }
        law_words_read_back(tail);
        assert(word_tokens(words) =~= seq![ShellToken::Word(words[0])] + word_tokens(tail));
    }
}

/// A shell reads the previewed command as these words: `cd` and `cwd`, then the
/// operator `&&`, then those of `argv`, as long as neither `cwd` nor an argument
/// is empty. What the words mean to the shell, such as an assignment, a reserved
/// word or a directory that `cd` takes in a way of its own, is not considered.
pub proof fn law_command_reads_back(argv: Seq<Seq<char>>, cwd: Seq<char>)
    requires
        none_empty(argv),
        cwd.len() > 0,
    ensures
        shell_reading(command_in(argv, cwd), false, None) == Some(
            seq![ShellToken::Word("cd"@), ShellToken::Word(cwd), ShellToken::AndIf] + word_tokens(
                argv,
            ),
        ),
{
    reveal_strlit("cd ");
    reveal_strlit("cd");
    reveal_strlit(" && ");
    let words = quoted_words(argv);
    let tail3 = " && "@ + words;
    let tail2 = quoted(cwd) + tail3;
    let tail1 = seq![' '] + tail2;
    assert(command_in(argv, cwd) =~= "cd"@ + tail1);
    lemma_read_safe("cd"@, tail1, None);
    assert(tail1.drop_first() =~= tail2);
    lemma_read_word(cwd, tail3);
    let amp = tail3.drop_first();
    assert(tail3[0] == ' ' && amp[0] == '&' && amp.drop_first()[0] == '&');
    let gap = amp.drop_first().drop_first();
    assert(gap[0] == ' ');
    assert(gap.drop_first() =~= words);
    law_words_read_back(argv);
    let none: Option<Seq<char>> = None;
    let read = word_tokens(argv);
    assert(ended(none) + read =~= read);
    assert(shell_reading(gap, false, None) == Some(read));
    let from_amp = seq![ShellToken::AndIf] + read;
    assert(ended(none).push(ShellToken::AndIf) + read =~= from_amp);
    assert(shell_reading(amp, false, None) == Some(from_amp));
    let from_cwd = seq![ShellToken::Word(cwd)] + from_amp;
    assert(shell_reading(tail3, false, Some(cwd)) == Some(from_cwd));
    assert(shell_reading(tail2, false, None) == Some(from_cwd));
    assert(seq![ShellToken::Word("cd"@)] + from_cwd =~= seq![
        ShellToken::Word("cd"@),
        ShellToken::Word(cwd),
        ShellToken::AndIf,
    ] + read);
}

/// An ASCII letter or digit, or one of the ten marks that no shell gives a meaning
/// in the middle of a word.
pub open spec fn is_plain(c: char) -> bool {
    ||| 'a' <= c <= 'z'
    ||| 'A' <= c <= 'Z'
    ||| '0' <= c <= '9'
    ||| "@%_+=:,./-"@.contains(c)
}

/// Plain characters are the safe ones.
proof fn lemma_plain_is_safe(c: char)
    ensures
        is_plain(c) <==> is_shell_safe(c),
{
    reveal_strlit("@%_+=:,./-");
    let marks = "@%_+=:,./-"@;
    assert(marks[0] == '@' && marks[1] == '%' && marks[2] == '_' && marks[3] == '+');
    assert(marks[4] == '=' && marks[5] == ':' && marks[6] == ',' && marks[7] == '.');
    assert(marks[8] == '/' && marks[9] == '-');
}

/// All of a word is plain exactly where all of it is safe.
proof fn lemma_plain_words(s: Seq<char>)
    ensures
        all_safe(s) <==> forall|i: int| 0 <= i < s.len() ==> is_plain(#[trigger] s[i]),
{
    assert forall|i: int| 0 <= i < s.len() implies is_plain(#[trigger] s[i]) == is_shell_safe(
        s[i],
    ) by {
        lemma_plain_is_safe(s[i]);
    }
    if forall|i: int| 0 <= i < s.len() ==> is_plain(#[trigger] s[i]) {
        assert forall|i: int| 0 <= i < s.len() implies is_shell_safe(#[trigger] s[i]) by {
            assert(is_plain(s[i]));
        }
    }
}

/// Without a single quote in it, a text stands between quotes as it is.
proof fn lemma_body_without_quotes(s: Seq<char>, rest: Seq<char>)
    requires
        !s.contains('\''),
    ensures
        quoted_body(s + rest) == s + quoted_body(rest),
    decreases s.len(),
{
    if s.len() == 0 {
        assert(s + rest =~= rest);
        assert(s + quoted_body(rest) =~= quoted_body(rest));
    } else {
        let tail = s.drop_first();
        assert(s.contains(s[0]));
        assert forall|i: int| 0 <= i < tail.len() implies tail[i] != '\'' by {
            assert(tail[i] == s[i + 1]);
            assert(s.contains(s[i + 1]));
        }
        assert((s + rest).drop_first() =~= tail + rest);
        lemma_body_without_quotes(tail, rest);
        assert(quoted_body(s + rest) =~= s + quoted_body(rest));
    }
}

/// A word of plain characters is written as it is. Any other is written between
/// single quotes, as it is where it holds none itself; where it holds one, the
/// quotes are closed before it, it stands escaped, and what follows it is quoted
/// anew.
pub proof fn law_quoting(word: Seq<char>, before: Seq<char>, after: Seq<char>)
    requires
        !before.contains('\''),
    ensures
        (forall|i: int| 0 <= i < word.len() ==> is_plain(#[trigger] word[i])) ==> quoted(word)
            == word,
        !word.contains('\'') && (exists|i: int|
            0 <= i < word.len() && !is_plain(#[trigger] word[i])) ==> quoted(word) == seq!['\'']
            + word + seq!['\''],
        quoted(before + seq!['\''] + after) == seq!['\''] + before + seq!['\'', '\\', '\''] + (
        if forall|i: int| 0 <= i < after.len() ==> is_plain(#[trigger] after[i]) {
            seq!['\''] + after + seq!['\'']
        } else {
            quoted(after)
        }),
{
    let none = Seq::<char>::empty();
    lemma_plain_words(word);
    if !word.contains('\'') {
        lemma_body_without_quotes(word, none);
        assert(word + none =~= word);
        assert(word + quoted_body(none) =~= word);
    }
    let rest = seq!['\''] + after;
    let all = before + seq!['\''] + after;
    assert(all =~= before + rest);
    lemma_body_without_quotes(before, rest);
    assert(rest.drop_first() =~= after);
    assert(quoted_body(rest) =~= seq!['\'', '\\', '\'', '\''] + quoted_body(after));
    assert(all[before.len() as int] == '\'');
    assert(!is_shell_safe(all[before.len() as int]));
    assert(!all_safe(all));
    lemma_plain_words(after);
    if all_safe(after) {
        assert forall|i: int| 0 <= i < after.len() implies after[i] != '\'' by {
            assert(is_shell_safe(after[i]));
        }
        lemma_body_without_quotes(after, none);
        assert(after + none =~= after);
        assert(after + quoted_body(none) =~= after);
    }
    assert(quoted(all) =~= seq!['\''] + before + seq!['\'', '\\', '\''] + (if all_safe(after) {
        seq!['\''] + after + seq!['\'']
    } else {
        quoted(after)
    }));
}

/// Every word of a command is written, quoted on its own, with one blank between
/// each two; a command in a directory has the change to it before the words.
pub proof fn law_words_are_written_in_turn(
    words: Seq<Seq<char>>,
    word: Seq<char>,
    cwd: Seq<char>,
)
    ensures
        quoted_words(Seq::empty()).len() == 0,
        quoted_words(seq![word]) == quoted(word),
        words.len() > 0 ==> quoted_words(words.push(word)) == quoted_words(words) + seq![' ']
            + quoted(word),
        command_in(words, cwd) == "cd "@ + quoted(cwd) + " && "@ + quoted_words(words),
{
    let write = |w: Seq<char>| quoted(w);
    let blank = seq![' '];
    assert(Seq::<Seq<char>>::empty().map_values(write) =~= Seq::empty());
    assert(seq![word].map_values(write) =~= seq![quoted(word)]);
    assert(words.push(word).map_values(write) =~= words.map_values(write).push(quoted(word)));
    assert(words.map_values(write).push(quoted(word)).drop_last() =~= words.map_values(write));
}

} // verus!
