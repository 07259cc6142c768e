//! What `/proc` says of a process.

use crate::text::{
    all_space, begins_with, chars_of, decimal, has_part, has_prefix, includes, is_space,
    is_white_space, join_texts, joined, law_decimal_reads_back, law_joining_in_stretches,
    law_parts_are_found, law_trimming_leaves_the_text, law_trimming_takes_space, lines_of,
    number_in, parse_number, same_text, split_lines, text_of, trim_text, trimmed, view_of, views,
};
use vstd::prelude::*;
use vstd::utf8::{decode_utf8, encode_utf8, valid_utf8};

verus! {

broadcast use vstd::string::group_string_axioms;

// ---------------------------------------------------------------------------
// Bytes as text
// ---------------------------------------------------------------------------

/// The text of bytes that are not UTF-8, as std decodes them.
pub uninterp spec fn lossy_text(bytes: Seq<u8>) -> Seq<char>;

/// The text of bytes that need not be UTF-8: what they encode where they are,
/// else the text that std makes of them.
pub open spec fn shown(bytes: Seq<u8>) -> Seq<char> {
    if valid_utf8(bytes) {
        decode_utf8(bytes)
    } else {
        lossy_text(bytes)
    }
}

/// `String::from_utf8_lossy` of std: for valid UTF-8 the text it encodes, for
/// other bytes some text, the same for the same bytes. Where replacement
/// characters stand in that text is left to std.
#[verifier::external_body]
fn decode_lossy(bytes: &[u8]) -> (r: String)
    ensures
        valid_utf8(bytes@) ==> r@ == decode_utf8(bytes@),
        !valid_utf8(bytes@) ==> r@ == lossy_text(bytes@),
{
    String::from_utf8_lossy(bytes).into_owned()
}

/// The text of bytes that need not be UTF-8.
pub fn text_of_bytes(bytes: &[u8]) -> (r: String)
    ensures
        r@ == shown(bytes@),
{
    decode_lossy(bytes)
}

// ---------------------------------------------------------------------------
// Command lines
// ---------------------------------------------------------------------------

/// The position of the first zero byte, or the length where there is none.
pub open spec fn first_zero(bytes: Seq<u8>) -> nat
    decreases bytes.len(),
{
    if bytes.len() == 0 || bytes[0] == 0 {
        0
    } else {
        1 + first_zero(bytes.drop_first())
    }
}

/// The position with these properties is `first_zero`.
proof fn lemma_first_zero(bytes: Seq<u8>, n: int)
    requires
        0 <= n <= bytes.len(),
        forall|i: int| 0 <= i < n ==> bytes[i] != 0,
        n < bytes.len() ==> bytes[n] == 0,
    ensures
        first_zero(bytes) == n,
    decreases bytes.len(),
{
    if bytes.len() > 0 && bytes[0] != 0 {
        let tail = bytes.drop_first();
        assert forall|i: int| 0 <= i < n - 1 implies tail[i] != 0 by {
            assert(tail[i] == bytes[i + 1]);
        }
        lemma_first_zero(tail, n - 1);
    }
}

/// What stands between the zero bytes, without what is empty.
pub open spec fn arguments(bytes: Seq<u8>) -> Seq<Seq<u8>>
    decreases bytes.len(),
{
    if bytes.len() == 0 {
        Seq::empty()
    } else {
        let n = first_zero(bytes) as int;
        let later = if n < bytes.len() {
            arguments(bytes.skip(n + 1))
        } else {
            Seq::empty()
        };
        if n > 0 {
            seq![bytes.take(n)] + later
        } else {
            later
        }
    }
}

/// The command line that a process was started with: its arguments with a blank
/// between each two, or nothing where it could not be read.
pub open spec fn cmdline_text(contents: Option<Seq<u8>>) -> Seq<char> {
    match contents {
        Some(bytes) => joined(
            arguments(bytes).map_values(|argument: Seq<u8>| shown(argument)),
            " "@,
        ),
        None => Seq::empty(),
    }
}

/// The view of optional bytes.
pub open spec fn bytes_view(bytes: Option<Vec<u8>>) -> Option<Seq<u8>> {
    match bytes {
        Some(b) => Some(b@),
        None => None,
    }
}

/// The command line of a process, given what `/proc/<pid>/cmdline` holds.
pub fn read_cmdline(contents: &Option<Vec<u8>>) -> (r: String)
    ensures
        r@ == cmdline_text(bytes_view(*contents)),
{
    let bytes = match contents {
        Some(bytes) => bytes,
        None => {
            return String::new();
        },
    };
    let mut parts: Vec<String> = Vec::new();
    let mut from: usize = 0;
    let ghost decode = |argument: Seq<u8>| shown(argument);
    assert(bytes@.skip(0) =~= bytes@);
    assert(views(parts@) =~= Seq::empty());
    while from < bytes.len()
        invariant
            from <= bytes@.len(),
            forall|b: Seq<u8>| #[trigger] decode(b) == shown(b),
            views(parts@) + arguments(bytes@.skip(from as int)).map_values(decode) == arguments(
                bytes@,
            ).map_values(decode),
        decreases bytes@.len() - from,
    {
        let ghost rest = bytes@.skip(from as int);
        let ghost before = parts@;
        let mut to: usize = from;
        while to < bytes.len() && bytes[to] != 0
            invariant
                from <= to <= bytes@.len(),
                forall|i: int| from <= i < to ==> bytes@[i] != 0,
            decreases bytes@.len() - to,
        {
            to += 1;
        }
        proof {
            lemma_first_zero(rest, to - from);
            if to < bytes@.len() {
                assert(rest.skip(to - from + 1) =~= bytes@.skip(to + 1));
            }
            assert(rest.take(to - from) =~= bytes@.subrange(from as int, to as int));
        }
        if to > from {
            let part = text_of_bytes(vstd::slice::slice_subrange(bytes.as_slice(), from, to));
            parts.push(part);
            assert(views(parts@) =~= views(before).push(part@));
        }
        if to < bytes.len() {
            from = to + 1;
        } else {
            from = to;
            assert(arguments(bytes@.skip(from as int)) =~= Seq::empty());
        }
        assert(views(parts@) + arguments(bytes@.skip(from as int)).map_values(decode) =~= views(
            before,
        ) + arguments(rest).map_values(decode));
    }
    assert(arguments(bytes@.skip(from as int)) =~= Seq::empty());
    assert(views(parts@) =~= arguments(bytes@).map_values(
        |argument: Seq<u8>| shown(argument),
    ));
    join_texts(parts.as_slice(), " ")
}

// ---------------------------------------------------------------------------
// The parent
// ---------------------------------------------------------------------------

/// The parent that a line of the status file names.
pub open spec fn parent_in(line: Seq<char>) -> Option<u32> {
    if begins_with(line, "PPid:"@) {
        number_in(trimmed(line.skip(5)))
    } else {
        None
    }
}

/// The parent that the first of `lines` to name one names.
pub open spec fn first_parent(lines: Seq<Seq<char>>) -> Option<u32>
    decreases lines.len(),
{
    if lines.len() == 0 {
        None
    } else if parent_in(lines[0]) is Some {
        parent_in(lines[0])
    } else {
        first_parent(lines.drop_first())
    }
}

/// The parent that a status file names.
pub open spec fn parent_of(status: Option<Seq<char>>) -> Option<u32> {
    match status {
        Some(text) => first_parent(lines_of(text)),
        None => None,
    }
}

/// The parent of a process, given what `/proc/<pid>/status` holds.
pub fn read_ppid(status: &Option<String>) -> (r: Option<u32>)
    ensures
        r == parent_of(view_of(*status)),
{
    let text = match status {
        Some(text) => text,
        None => {
            return None;
        },
    };
    let lines = split_lines(text.as_str());
    let ghost all = views(lines@);
    let mut i: usize = 0;
    assert(all.skip(0) =~= all);
    while i < lines.len()
        invariant
            i <= lines@.len(),
            all == views(lines@),
            all == lines_of(text@),
            view_of(*status) == Some(text@),
            first_parent(all.skip(i as int)) == first_parent(all),
        decreases lines@.len() - i,
    {
        let ghost rest = all.skip(i as int);
        assert(rest[0] == lines@[i as int]@);
        assert(rest.drop_first() =~= all.skip(i + 1));
        let line = lines[i].as_str();
        if has_prefix(line, "PPid:") {
            proof {
                reveal_strlit("PPid:");
            }
            let cs = chars_of(line);
            let value = text_of(cs.as_slice(), 5, cs.len());
            assert(value@ =~= line@.skip(5));
            let number = parse_number(trim_text(value.as_str()).as_str());
            if number.is_some() {
                return number;
            }
        }
        i += 1;
    }
    None
}

// ---------------------------------------------------------------------------
// Codex processes
// ---------------------------------------------------------------------------

/// The process that an entry of `/proc` is about, where its name is a number.
pub open spec fn pid_named(name: Seq<u8>) -> Option<u32> {
    number_in(shown(name))
}

/// The process that an entry of `/proc` is about.
pub fn process_id(name: &[u8]) -> (r: Option<u32>)
    ensures
        r == pid_named(name@),
{
    let text = text_of_bytes(name);
    parse_number(text.as_str())
}

/// The text up to the first white space.
pub open spec fn first_field(s: Seq<char>) -> Seq<char>
    decreases s.len(),
{
    if s.len() == 0 || is_space(s[0]) {
        Seq::empty()
    } else {
        seq![s[0]] + first_field(s.drop_first())
    }
}

/// The user that a line of the status file names as the owner: of the four ids
/// that the kernel gives there, the first, which is the real one.
pub open spec fn owner_in(line: Seq<char>) -> Option<u32> {
    if begins_with(line, "Uid:"@) {
        number_in(first_field(trimmed(line.skip(4))))
    } else {
        None
    }
}

/// The owner that the first of `lines` to name one names.
pub open spec fn first_owner(lines: Seq<Seq<char>>) -> Option<u32>
    decreases lines.len(),
{
    if lines.len() == 0 {
        None
    } else if owner_in(lines[0]) is Some {
        owner_in(lines[0])
    } else {
        first_owner(lines.drop_first())
    }
}

/// The owner that a status file names.
pub open spec fn owner_of(status: Option<Seq<char>>) -> Option<u32> {
    match status {
        Some(text) => first_owner(lines_of(text)),
        None => None,
    }
}

/// The text up to the first white space.
fn field_text(s: &str) -> (r: String)
    ensures
        r@ == first_field(s@),
{
    let cs = chars_of(s);
    let mut n: usize = 0;
    assert(cs@.skip(0) =~= s@);
    assert(cs@.take(0) + first_field(cs@.skip(0)) =~= first_field(s@));
    while n < cs.len() && !is_white_space(cs[n])
        invariant
            n <= cs@.len(),
            cs@ == s@,
            cs@.take(n as int) + first_field(cs@.skip(n as int)) == first_field(s@),
        decreases cs@.len() - n,
    {
        let ghost rest = cs@.skip(n as int);
        assert(rest.drop_first() =~= cs@.skip(n + 1));
        assert(cs@.take(n + 1) + first_field(cs@.skip(n + 1)) =~= cs@.take(n as int) + first_field(
            rest,
        ));
        n += 1;
    }
    assert(first_field(cs@.skip(n as int)) =~= Seq::empty());
    assert(cs@.take(n as int) =~= first_field(s@));
    text_of(cs.as_slice(), 0, n)
}

/// The owner of a process, given what `/proc/<pid>/status` holds.
pub fn read_owner(status: &Option<String>) -> (r: Option<u32>)
    ensures
        r == owner_of(view_of(*status)),
{
    let text = match status {
        Some(text) => text,
        None => {
            return None;
        },
    };
    let lines = split_lines(text.as_str());
    let ghost all = views(lines@);
    let mut i: usize = 0;
    assert(all.skip(0) =~= all);
    while i < lines.len()
        invariant
            i <= lines@.len(),
            all == views(lines@),
            all == lines_of(text@),
            view_of(*status) == Some(text@),
            first_owner(all.skip(i as int)) == first_owner(all),
        decreases lines@.len() - i,
    {
        let ghost rest = all.skip(i as int);
        assert(rest[0] == lines@[i as int]@);
        assert(rest.drop_first() =~= all.skip(i + 1));
        let line = lines[i].as_str();
        if has_prefix(line, "Uid:") {
            proof {
                reveal_strlit("Uid:");
            }
            let cs = chars_of(line);
            let value = text_of(cs.as_slice(), 4, cs.len());
            assert(value@ =~= line@.skip(4));
            let ids = trim_text(value.as_str());
            let number = parse_number(field_text(ids.as_str()).as_str());
            if number.is_some() {
                return number;
            }
        }
        i += 1;
    }
    None
}

/// A process with this owner, where it is known, belongs to the user.
pub open spec fn is_own(owner: Option<u32>, user: u32) -> bool {
    owner == Some(user)
}

/// Whether a process with this owner, if it could be found out, belongs to the
/// user; both are given by their numbers.
pub fn is_own_entry(owner: Option<u32>, user: u32) -> (r: bool)
    ensures
        r == is_own(owner, user),
{
    match owner {
        Some(uid) => uid == user,
        None => false,
    }
}

/// A process of this short name is a Codex process.
pub open spec fn is_codex_name(comm: Option<Seq<char>>) -> bool {
    match comm {
        Some(text) => trimmed(text) == "codex"@,
        None => false,
    }
}

/// Whether a process of this short name, if it could be read, is a Codex process.
pub fn is_codex_comm(comm: &Option<String>) -> (r: bool)
    ensures
        r == is_codex_name(view_of(*comm)),
{
    match comm {
        Some(text) => {
            let name = trim_text(text.as_str());
            same_text(name.as_str(), "codex")
        },
        None => false,
    }
}

/// A process with this command line runs Codex.
pub open spec fn runs_codex(cmdline: Seq<char>) -> bool {
    begins_with(cmdline, "codex"@) || includes(cmdline, "/codex"@)
}

/// Whether a process with this command line runs Codex.
pub fn is_codex_cmdline(cmdline: &str) -> (r: bool)
    ensures
        r == runs_codex(cmdline@),
{
    has_prefix(cmdline, "codex") || has_part(cmdline, "/codex")
}

/// The working directory of a process as text, given where its link points.
pub open spec fn cwd_text(link: Option<Seq<u8>>) -> Seq<char> {
    match link {
        Some(bytes) => shown(bytes),
        None => "<unknown>"@,
    }
}

/// The working directory of a process, given where `/proc/<pid>/cwd` points.
pub fn read_cwd(link: &Option<Vec<u8>>) -> (r: String)
    ensures
        r@ == cwd_text(bytes_view(*link)),
{
    match link {
        Some(bytes) => text_of_bytes(bytes.as_slice()),
        None => "<unknown>".to_string(),
    }
}

// ---------------------------------------------------------------------------
// Laws
// ---------------------------------------------------------------------------

/// Arguments as the kernel hands them out: each with a zero byte after it.
pub open spec fn zero_terminated(args: Seq<Seq<u8>>) -> Seq<u8>
    decreases args.len(),
{
    if args.len() == 0 {
        Seq::empty()
    } else {
        args[0] + seq![0u8] + zero_terminated(args.drop_first())
    }
}

/// The arguments of a process are read back from its command line file as they
/// were, except for the empty ones, which are left out.
pub proof fn law_arguments_read_back(args: Seq<Seq<u8>>)
    requires
        forall|i: int| 0 <= i < args.len() ==> !(#[trigger] args[i]).contains(0u8),
    ensures
        arguments(zero_terminated(args)) == args.filter(|a: Seq<u8>| a.len() > 0),
    decreases args.len(),
{
    let nonempty = |a: Seq<u8>| a.len() > 0;
    reveal_with_fuel(Seq::filter, 2);
    if args.len() > 0 {
        let tail = args.drop_first();
        let bytes = zero_terminated(args);
        let n = args[0].len() as int;
        assert forall|i: int| 0 <= i < n implies bytes[i] != 0 by {
            assert(bytes[i] == args[0][i]);
            assert(args[0].contains(args[0][i]));
        }
        assert(bytes[n] == 0);
        lemma_first_zero(bytes, n);
        assert(bytes.skip(n + 1) =~= zero_terminated(tail));
        assert(bytes.take(n) =~= args[0]);
        assert forall|i: int| 0 <= i < tail.len() implies !(#[trigger] tail[i]).contains(0u8) by {
            assert(tail[i] == args[i + 1]);
        }
        law_arguments_read_back(tail);
        assert(args =~= seq![args[0]] + tail);
        Seq::filter_distributes_over_add(seq![args[0]], tail, nonempty);
        assert(seq![args[0]].drop_last() =~= Seq::empty());
        assert(seq![args[0]].filter(nonempty) =~= if n > 0 {
            seq![args[0]]
        } else {
            Seq::empty()
        });
        assert(arguments(bytes) =~= args.filter(nonempty));
    }
}

/// A command line that begins with `codex` is that of a Codex process, and so is
/// one in which `/codex` stands anywhere, whatever stands before and after it; one
/// with neither is not.
pub proof fn law_codex_command_lines(before: Seq<char>, after: Seq<char>, other: Seq<char>)
    ensures
        runs_codex("codex"@ + after),
        runs_codex(before + "/codex"@ + after),
        runs_codex(other) ==> (exists|b: Seq<char>| other == #[trigger] ("codex"@ + b)) || (exists|
            a: Seq<char>,
            b: Seq<char>,
        | other == #[trigger] (a + "/codex"@ + b)),
{
    law_parts_are_found("codex"@ + after, "codex"@);
    law_parts_are_found(before + "/codex"@ + after, "/codex"@);
    law_parts_are_found(other, "codex"@);
    law_parts_are_found(other, "/codex"@);
}

/// A process is named Codex exactly where its short name is `codex` with nothing
/// but white space around it; a name that could not be read is not.
pub proof fn law_codex_names(before: Seq<char>, after: Seq<char>, other: Seq<char>)
    requires
        all_space(before),
        all_space(after),
    ensures
        is_codex_name(Some(before + "codex"@ + after)),
        is_codex_name(Some(other)) ==> exists|a: Seq<char>, b: Seq<char>|
            all_space(a) && all_space(b) && other == #[trigger] (a + "codex"@ + b),
        !is_codex_name(None),
{
    reveal_strlit("codex");
    law_trimming_leaves_the_text(before, "codex"@, after);
    law_trimming_takes_space(other);
}

/// Text in UTF-8 is shown as it is: as a working directory, as the name of an
/// entry, anywhere. What is not UTF-8 is shown as std decodes it.
pub proof fn law_utf8_is_shown_as_it_is(text: Seq<char>, bytes: Seq<u8>)
    ensures
        shown(encode_utf8(text)) == text,
        !valid_utf8(bytes) ==> shown(bytes) == lossy_text(bytes),
        cwd_text(Some(encode_utf8(text))) == text,
        cwd_text(Some(bytes)) == shown(bytes),
        cwd_text(None) == "<unknown>"@,
        pid_named(encode_utf8(text)) == number_in(text),
        pid_named(bytes) == number_in(shown(bytes)),
{
    vstd::utf8::encode_utf8_valid_utf8(text);
    vstd::utf8::encode_utf8_decode_utf8(text);
}

/// An entry named by a number in decimal is about the process of that number.
pub proof fn law_entries_are_named_by_numbers(n: u32)
    ensures
        pid_named(encode_utf8(decimal(n as nat))) == Some(n),
{
    law_utf8_is_shown_as_it_is(decimal(n as nat), Seq::empty());
    law_decimal_reads_back(n);
}

/// There are no arguments exactly where there is nothing but zero bytes.
proof fn lemma_no_arguments(bytes: Seq<u8>)
    ensures
        arguments(bytes).len() == 0 <==> forall|i: int| 0 <= i < bytes.len() ==> bytes[i] == 0,
    decreases bytes.len(),
{
    if bytes.len() > 0 {
        if bytes[0] == 0 {
            let tail = bytes.skip(1);
            lemma_no_arguments(tail);
            assert forall|i: int| 0 <= i < bytes.len() && arguments(bytes).len() == 0 implies
                bytes[i] == 0 by {
                if i > 0 {
                    assert(bytes[i] == tail[i - 1]);
                }
            }
        } else {
            assert(first_zero(bytes) > 0);
        }
    }
}

/// A zero byte ends an argument of a command line. The arguments are shown with
/// one blank between each two, none is left out unless it is empty, and the last
/// needs no zero byte.
pub proof fn law_command_line_shows_arguments(argument: Seq<u8>, rest: Seq<u8>)
    requires
        argument.len() > 0,
        !argument.contains(0u8),
    ensures
        cmdline_text(Some(argument)) == shown(argument),
        cmdline_text(Some(argument + seq![0u8] + rest)) == if forall|i: int|
            0 <= i < rest.len() ==> rest[i] == 0 {
            shown(argument)
        } else {
            shown(argument) + " "@ + cmdline_text(Some(rest))
        },
        cmdline_text(Some(seq![0u8] + rest)) == cmdline_text(Some(rest)),
        cmdline_text(Some(Seq::empty())).len() == 0,
        cmdline_text(None).len() == 0,
{
    let decode = |a: Seq<u8>| shown(a);
    let n = argument.len() as int;
    let bytes = argument + seq![0u8] + rest;
    assert forall|i: int| 0 <= i < n implies argument[i] != 0 by {
        assert(argument.contains(argument[i]));
    }
    assert forall|i: int| 0 <= i < n implies bytes[i] != 0 by {
        assert(bytes[i] == argument[i]);
    }
    assert(bytes[n] == 0);
    lemma_first_zero(argument, n);
    lemma_first_zero(bytes, n);
    assert(argument.take(n) =~= argument);
    assert(bytes.take(n) =~= argument);
    assert(bytes.skip(n + 1) =~= rest);
    let first = seq![argument];
    let later = arguments(rest);
    assert(arguments(argument) =~= first);
    assert(arguments(bytes) =~= first + later);
    assert(first.map_values(decode) =~= seq![shown(argument)]);
    assert((first + later).map_values(decode) =~= seq![shown(argument)] + later.map_values(decode));
    law_joining_in_stretches(
        seq![shown(argument)],
        later.map_values(decode),
        shown(argument),
        " "@,
    );
    lemma_no_arguments(rest);
    if later.len() == 0 {
        assert(first + later =~= first);
    }
    let zero = seq![0u8] + rest;
    assert(zero.skip(1) =~= rest);
    assert(first_zero(zero) == 0);
    assert(arguments(zero) == later);
    assert(arguments(Seq::<u8>::empty()).map_values(decode) =~= Seq::empty());
}

/// A line of the status file that gives this number, and nothing else, for `PPid:`.
pub open spec fn names_parent(line: Seq<char>, n: u32) -> bool {
    exists|value: Seq<char>|
        line == #[trigger] ("PPid:"@ + value) && number_in(trimmed(value)) == Some(n)
}

/// The text is this number, or begins with it and white space behind it.
pub open spec fn leads_with(text: Seq<char>, n: u32) -> bool {
    exists|field: Seq<char>, more: Seq<char>|
        text == #[trigger] (field + more) && (forall|i: int|
            0 <= i < field.len() ==> !is_space(#[trigger] field[i])) && (more.len() > 0 ==> is_space(
            more[0],
        )) && number_in(field) == Some(n)
}

/// A line of the status file whose first field after `Uid:` is this number.
pub open spec fn names_owner(line: Seq<char>, n: u32) -> bool {
    exists|value: Seq<char>|
        line == #[trigger] ("Uid:"@ + value) && leads_with(trimmed(value), n)
}

/// What `parent_in` finds.
proof fn lemma_parent_in(line: Seq<char>, n: u32)
    ensures
        parent_in(line) == Some(n) <==> names_parent(line, n),
{
    reveal_strlit("PPid:");
    law_parts_are_found(line, "PPid:"@);
    if names_parent(line, n) {
        let value = choose|value: Seq<char>|
            line == #[trigger] ("PPid:"@ + value) && number_in(trimmed(value)) == Some(n);
        assert(line.skip(5) =~= value);
    }
    if parent_in(line) == Some(n) {
        assert(line =~= "PPid:"@ + line.skip(5));
    }
}

/// The first field ends at the first white space.
proof fn lemma_first_field(s: Seq<char>, field: Seq<char>, more: Seq<char>)
    requires
        s == field + more,
        forall|i: int| 0 <= i < field.len() ==> !is_space(#[trigger] field[i]),
        more.len() > 0 ==> is_space(more[0]),
    ensures
        first_field(s) == field,
    decreases s.len(),
{
    if field.len() == 0 {
        assert(s =~= more);
        assert(field =~= Seq::empty());
    } else {
        assert(s[0] == field[0]);
        assert(s.drop_first() =~= field.drop_first() + more);
        lemma_first_field(s.drop_first(), field.drop_first(), more);
        assert(field =~= seq![field[0]] + field.drop_first());
    }
}

/// What follows the first field is empty or begins with white space.
proof fn lemma_after_field(s: Seq<char>)
    ensures
        first_field(s).len() <= s.len(),
        s == first_field(s) + s.skip(first_field(s).len() as int),
        forall|i: int| 0 <= i < first_field(s).len() ==> !is_space(#[trigger] first_field(s)[i]),
        first_field(s).len() < s.len() ==> is_space(s[first_field(s).len() as int]),
    decreases s.len(),
{
    if s.len() == 0 || is_space(s[0]) {
        assert(s =~= first_field(s) + s.skip(0));
    } else {
        let tail = s.drop_first();
        lemma_after_field(tail);
        let n = first_field(s).len() as int;
        assert(s.skip(n) =~= tail.skip(n - 1));
        assert(s =~= seq![s[0]] + tail);
        assert(s =~= first_field(s) + s.skip(n));
        assert forall|i: int| 0 <= i < n implies !is_space(#[trigger] first_field(s)[i]) by {
            if i > 0 {
                assert(first_field(s)[i] == first_field(tail)[i - 1]);
            }
        }
    }
}

/// The first field is the number that the text leads with.
proof fn lemma_leads_with(text: Seq<char>, n: u32)
    ensures
        number_in(first_field(text)) == Some(n) <==> leads_with(text, n),
{
    if leads_with(text, n) {
        let (field, more) = choose|field: Seq<char>, more: Seq<char>|
            text == #[trigger] (field + more) && (forall|i: int|
                0 <= i < field.len() ==> !is_space(#[trigger] field[i])) && (more.len() > 0
                ==> is_space(more[0])) && number_in(field) == Some(n);
        lemma_first_field(text, field, more);
    }
    if number_in(first_field(text)) == Some(n) {
        lemma_after_field(text);
        let field = first_field(text);
        let more = text.skip(field.len() as int);
        assert(more.len() > 0 ==> more[0] == text[field.len() as int]);
        assert(text == field + more);
    }
}

/// What `owner_in` finds.
proof fn lemma_owner_in(line: Seq<char>, n: u32)
    ensures
        owner_in(line) == Some(n) <==> names_owner(line, n),
{
    reveal_strlit("Uid:");
    law_parts_are_found(line, "Uid:"@);
    if names_owner(line, n) {
        let value = choose|value: Seq<char>|
            line == #[trigger] ("Uid:"@ + value) && leads_with(trimmed(value), n);
        assert(line.skip(4) =~= value);
        lemma_leads_with(trimmed(value), n);
    }
    if owner_in(line) == Some(n) {
        assert(line =~= "Uid:"@ + line.skip(4));
        lemma_leads_with(trimmed(line.skip(4)), n);
    }
}

/// The parent of a process is what the first line of its status file says that
/// gives a number for `PPid:`, and is unknown exactly where no line does.
pub proof fn law_first_line_names_parent(text: Seq<char>)
    ensures
        match parent_of(Some(text)) {
            Some(n) => exists|i: int|
                0 <= i < lines_of(text).len() && #[trigger] names_parent(lines_of(text)[i], n)
                    && forall|j: int, m: u32|
                    0 <= j < i ==> !#[trigger] names_parent(lines_of(text)[j], m),
            None => forall|i: int, m: u32|
                0 <= i < lines_of(text).len() ==> !#[trigger] names_parent(lines_of(text)[i], m),
        },
        parent_of(None) is None,
{
    lemma_first_parent(lines_of(text));
}

/// What `first_parent` finds.
proof fn lemma_first_parent(lines: Seq<Seq<char>>)
    ensures
        match first_parent(lines) {
            Some(n) => exists|i: int|
                0 <= i < lines.len() && #[trigger] names_parent(lines[i], n) && forall|
                    j: int,
                    m: u32,
                |
                    0 <= j < i ==> !#[trigger] names_parent(lines[j], m),
            None => forall|i: int, m: u32|
                0 <= i < lines.len() ==> !#[trigger] names_parent(lines[i], m),
        },
    decreases lines.len(),
{
    if lines.len() > 0 {
        assert forall|m: u32| #[trigger] names_parent(lines[0], m) <==> parent_in(lines[0]) == Some(
            m,
        ) by {
            lemma_parent_in(lines[0], m);
        }
        if parent_in(lines[0]) is Some {
            assert(names_parent(lines[0], parent_in(lines[0])->0));
        } else {
            let tail = lines.drop_first();
            lemma_first_parent(tail);
            match first_parent(tail) {
                Some(n) => {
                    let k = choose|k: int|
                        0 <= k < tail.len() && #[trigger] names_parent(tail[k], n) && forall|
                            j: int,
                            m: u32,
                        |
                            0 <= j < k ==> !#[trigger] names_parent(tail[j], m);
                    assert(lines[k + 1] == tail[k]);
                    assert forall|j: int, m: u32| 0 <= j < k + 1 implies !#[trigger] names_parent(
                        lines[j],
                        m,
                    ) by {
                        if j > 0 {
                            assert(lines[j] == tail[j - 1]);
                        }
                    }
                    assert(names_parent(lines[k + 1], n));
                },
                None => {
                    assert forall|i: int, m: u32| 0 <= i < lines.len() implies
                        !#[trigger] names_parent(lines[i], m) by {
                        if i > 0 {
                            assert(lines[i] == tail[i - 1]);
                        }
                    }
                },
            }
        }
    }
}

/// The owner of a process is what the first line of its status file says whose
/// first field after `Uid:` is a number, and is unknown exactly where there is
/// no such line.
pub proof fn law_first_line_names_owner(text: Seq<char>)
    ensures
        match owner_of(Some(text)) {
            Some(n) => exists|i: int|
                0 <= i < lines_of(text).len() && #[trigger] names_owner(lines_of(text)[i], n)
                    && forall|j: int, m: u32|
                    0 <= j < i ==> !#[trigger] names_owner(lines_of(text)[j], m),
            None => forall|i: int, m: u32|
                0 <= i < lines_of(text).len() ==> !#[trigger] names_owner(lines_of(text)[i], m),
        },
        owner_of(None) is None,
{
    lemma_first_owner(lines_of(text));
}

/// What `first_owner` finds.
proof fn lemma_first_owner(lines: Seq<Seq<char>>)
    ensures
        match first_owner(lines) {
            Some(n) => exists|i: int|
                0 <= i < lines.len() && #[trigger] names_owner(lines[i], n) && forall|
                    j: int,
                    m: u32,
                |
                    0 <= j < i ==> !#[trigger] names_owner(lines[j], m),
            None => forall|i: int, m: u32|
                0 <= i < lines.len() ==> !#[trigger] names_owner(lines[i], m),
        },
    decreases lines.len(),
{
    if lines.len() > 0 {
        assert forall|m: u32| #[trigger] names_owner(lines[0], m) <==> owner_in(lines[0]) == Some(
            m,
        ) by {
            lemma_owner_in(lines[0], m);
        }
        if owner_in(lines[0]) is Some {
            assert(names_owner(lines[0], owner_in(lines[0])->0));
        } else {
            let tail = lines.drop_first();
            lemma_first_owner(tail);
            match first_owner(tail) {
                Some(n) => {
                    let k = choose|k: int|
                        0 <= k < tail.len() && #[trigger] names_owner(tail[k], n) && forall|
                            j: int,
                            m: u32,
                        |
                            0 <= j < k ==> !#[trigger] names_owner(tail[j], m);
                    assert(lines[k + 1] == tail[k]);
                    assert forall|j: int, m: u32| 0 <= j < k + 1 implies !#[trigger] names_owner(
                        lines[j],
                        m,
                    ) by {
                        if j > 0 {
                            assert(lines[j] == tail[j - 1]);
                        }
                    }
                    assert(names_owner(lines[k + 1], n));
                },
                None => {
                    assert forall|i: int, m: u32| 0 <= i < lines.len() implies
                        !#[trigger] names_owner(lines[i], m) by {
                        if i > 0 {
                            assert(lines[i] == tail[i - 1]);
                        }
                    }
                },
            }
        }
    }
}

/// A process is the user's exactly where its owner is known and is that user.
pub proof fn law_own_processes(owner: u32, user: u32)
    ensures
        is_own(Some(owner), user) <==> owner == user,
        !is_own(None, user),
{
}

} // verus!
