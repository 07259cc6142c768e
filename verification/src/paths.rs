//! Paths as the bytes that Unix takes them for.

use crate::text::{chars_of, has_char};
use vstd::prelude::*;
use vstd::utf8::encode_utf8;

verus! {

broadcast use vstd::string::group_string_axioms;

/// The byte that separates the names in a path.
pub const SLASH: u8 = 47;

/// The path begins at the root.
pub open spec fn is_absolute(path: Seq<u8>) -> bool {
    path.len() > 0 && path[0] == SLASH
}

/// `part` as seen from `base`: itself where it is absolute, else `base` and
/// `part` with one slash between them, unless `base` ends in one or is empty.
pub open spec fn seen_from(base: Seq<u8>, part: Seq<u8>) -> Seq<u8> {
    if is_absolute(part) {
        part
    } else if base.len() == 0 || base.last() == SLASH {
        base + part
    } else {
        base.push(SLASH) + part
    }
}

/// `part` as seen from `base`.
pub fn join_path(base: &[u8], part: &[u8]) -> (r: Vec<u8>)
    ensures
        r@ == seen_from(base@, part@),
{
    let mut out: Vec<u8> = Vec::new();
    if part.len() > 0 && part[0] == SLASH {
        out.extend_from_slice(part);
        assert(out@ =~= part@);
        return out;
    }
    out.extend_from_slice(base);
    assert(out@ =~= base@);
    if base.len() > 0 && base[base.len() - 1] != SLASH {
        out.push(SLASH);
    }
    let ghost before = out@;
    out.extend_from_slice(part);
    assert(out@ =~= before + part@);
    out
}

/// The state database in a Codex home directory.
pub open spec fn state_db_path(codex_home: Seq<u8>) -> Seq<u8> {
    seen_from(codex_home, encode_utf8("state_5.sqlite"@))
}

/// The Codex home directory, given the user's; the current directory stands in
/// for one that is not known.
pub open spec fn codex_home_path(home: Option<Seq<u8>>) -> Seq<u8> {
    match home {
        Some(path) => seen_from(path, encode_utf8(".codex"@)),
        None => seen_from(encode_utf8("."@), encode_utf8(".codex"@)),
    }
}

/// The socket of the daemon: in the user's runtime directory where there is one,
/// else in the directory for temporary files.
pub open spec fn socket_path(runtime_dir: Option<Seq<u8>>, temp_dir: Seq<u8>) -> Seq<u8> {
    match runtime_dir {
        Some(path) => seen_from(path, encode_utf8("codexdaemon.sock"@)),
        None => seen_from(temp_dir, encode_utf8("codexdaemon.sock"@)),
    }
}

/// An optional path as a sequence.
pub open spec fn optional_path(path: Option<Vec<u8>>) -> Option<Seq<u8>> {
    match path {
        Some(bytes) => Some(bytes@),
        None => None,
    }
}

/// The state database in a Codex home directory.
pub fn state_db(codex_home: &[u8]) -> (r: Vec<u8>)
    ensures
        r@ == state_db_path(codex_home@),
        r@ == seen_from(codex_home@, encode_utf8("state_5.sqlite"@)),
{
    join_path(codex_home, "state_5.sqlite".as_bytes())
}

/// The Codex home directory, given the user's; the current directory stands in
/// for one that is not known.
pub fn default_codex_home(home: Option<Vec<u8>>) -> (r: Vec<u8>)
    ensures
        r@ == codex_home_path(optional_path(home)),
        r@ == seen_from(
            match home {
                Some(path) => path@,
                None => encode_utf8("."@),
            },
            encode_utf8(".codex"@),
        ),
{
    match home {
        Some(path) => join_path(path.as_slice(), ".codex".as_bytes()),
        None => join_path(".".as_bytes(), ".codex".as_bytes()),
    }
}

/// The socket of the daemon: in the user's runtime directory where there is one,
/// else in the directory for temporary files.
pub fn default_socket_path(runtime_dir: Option<Vec<u8>>, temp_dir: &[u8]) -> (r: Vec<u8>)
    ensures
        r@ == socket_path(optional_path(runtime_dir), temp_dir@),
        r@ == seen_from(
            match runtime_dir {
                Some(path) => path@,
                None => temp_dir@,
            },
            encode_utf8("codexdaemon.sock"@),
        ),
{
    match runtime_dir {
        Some(path) => join_path(path.as_slice(), "codexdaemon.sock".as_bytes()),
        None => join_path(temp_dir, "codexdaemon.sock".as_bytes()),
    }
}

// ---------------------------------------------------------------------------
// Programs
// ---------------------------------------------------------------------------

/// The program is given by a path that depends on the current directory.
pub open spec fn depends_on_current_dir(program: Seq<char>) -> bool {
    program.contains('/') && program[0] != '/'
}

/// The program to execute from another directory than the current one: a path
/// that depends on the current directory is resolved against it first, anything
/// else stays as it is.
pub open spec fn program_to_execute(
    program: Seq<char>,
    current_dir: Result<Seq<u8>, Seq<char>>,
) -> Result<Seq<u8>, Seq<char>> {
    if depends_on_current_dir(program) {
        match current_dir {
            Ok(dir) => Ok(seen_from(dir, encode_utf8(program))),
            Err(reason) => Err(reason),
        }
    } else {
        Ok(encode_utf8(program))
    }
}

/// A path, or why there is none, as sequences.
pub open spec fn path_view(path: Result<Vec<u8>, String>) -> Result<Seq<u8>, Seq<char>> {
    match path {
        Ok(bytes) => Ok(bytes@),
        Err(reason) => Err(reason@),
    }
}

/// Whether the program is given by a path that depends on the current directory.
pub fn needs_current_dir(program: &str) -> (r: bool)
    ensures
        r == depends_on_current_dir(program@),
{
    let cs = chars_of(program);
    has_char(program, '/') && cs[0] != '/'
}

/// The program to execute from another directory than the current one, which is
/// not looked at unless the program depends on it.
pub fn exec_program(program: &str, current_dir: Result<Vec<u8>, String>) -> (r: Result<
    Vec<u8>,
    String,
>)
    ensures
        path_view(r) == program_to_execute(program@, path_view(current_dir)),
{
    if needs_current_dir(program) {
        match current_dir {
            Ok(dir) => Ok(join_path(dir.as_slice(), program.as_bytes())),
            Err(reason) => Err(reason),
        }
    } else {
        let mut out: Vec<u8> = Vec::new();
        out.extend_from_slice(program.as_bytes());
        assert(out@ =~= encode_utf8(program@));
        Ok(out)
    }
}

// ---------------------------------------------------------------------------
// Laws
// ---------------------------------------------------------------------------

/// A program given by a path with a slash means the same file from any other
/// directory once it is resolved, as the current directory is absolute.
pub proof fn law_resolved_program_survives_chdir(
    program: Seq<char>,
    current_dir: Seq<u8>,
    elsewhere: Seq<u8>,
)
    requires
        is_absolute(current_dir),
        program.contains('/'),
    ensures
        program_to_execute(program, Ok(current_dir)) matches Ok(path) && is_absolute(path)
            && seen_from(elsewhere, path) == path,
{
    let bytes = encode_utf8(program);
    if !depends_on_current_dir(program) {
        vstd::utf8::encode_utf8_first_scalar(program);
        assert(program[0] == '/');
        assert(is_absolute(bytes)) by {
            assert(vstd::utf8::encode_scalar('/' as u32) =~= seq![47u8]) by {
                assert(47u32 & 0x7f == 47u32) by (bit_vector);
            }
        }
    }
}

/// A program given by its bare name stays that name, whatever the current
/// directory, so that it is still looked up on the search path.
pub proof fn law_bare_program_stays(program: Seq<char>, current_dir: Result<Seq<u8>, Seq<char>>)
    requires
        !program.contains('/'),
    ensures
        program_to_execute(program, current_dir) == Ok::<Seq<u8>, Seq<char>>(
            encode_utf8(program),
        ),
{
}

/// A path that begins at the root is the same from everywhere; any other is the
/// base with the path behind it and exactly one slash where they meet, unless the
/// base is empty.
pub proof fn law_paths_meet_at_one_slash(base: Seq<u8>, part: Seq<u8>)
    ensures
        part.len() > 0 && part[0] == 47 ==> seen_from(base, part) == part,
        !(part.len() > 0 && part[0] == 47) ==> {
            &&& base.len() == 0 ==> seen_from(base, part) == part
            &&& base.len() > 0 && base.last() == 47 ==> seen_from(base, part) == base + part
            &&& base.len() > 0 && base.last() != 47 ==> seen_from(base, part) == base + seq![47u8]
                + part
        },
{
    if base.len() == 0 {
        assert(base + part =~= part);
    } else {
        assert(base.push(47u8) + part =~= base + seq![47u8] + part);
    }
}

/// The encoding of a text begins with the byte of a slash exactly where the text
/// begins with a slash.
proof fn lemma_encoded_slash(text: Seq<char>)
    requires
        text.len() > 0,
    ensures
        encode_utf8(text).len() > 0,
        encode_utf8(text)[0] == 47 <==> text[0] == '/',
{
    let c = text[0] as u32;
    vstd::utf8::char_is_scalar(text[0]);
    let first = vstd::utf8::encode_scalar(c);
    assert(encode_utf8(text)[0] == first[0]);
    assert(c <= 0x7f ==> (c & 0x7f) as u8 == c) by (bit_vector);
    assert((0xC0u8 | ((c >> 6) & 0x1F) as u8) >= 0xC0) by (bit_vector);
    assert((0xE0u8 | ((c >> 12) & 0x0F) as u8) >= 0xE0) by (bit_vector);
    assert((0xF0u8 | ((c >> 18) & 0x7) as u8) >= 0xF0) by (bit_vector);
    vstd::utf8::char_u32_cast(text[0], c);
    vstd::utf8::char_u32_cast('/', 47);
}

/// A program without a slash, and one whose path begins at the root, is executed
/// as it is given; any other with a slash is taken from the current directory, and
/// cannot be executed where that is not known.
pub proof fn law_programs_to_execute(program: Seq<char>, dir: Seq<u8>, reason: Seq<char>)
    ensures
        !program.contains('/') || program[0] == '/' ==> program_to_execute(program, Ok(dir)) == Ok::<
            Seq<u8>,
            Seq<char>,
        >(encode_utf8(program)) && program_to_execute(program, Err(reason)) == Ok::<
            Seq<u8>,
            Seq<char>,
        >(encode_utf8(program)),
        program.contains('/') && program[0] != '/' ==> {
            &&& program_to_execute(program, Err(reason)) == Err::<Seq<u8>, Seq<char>>(reason)
            &&& dir.len() > 0 && dir.last() != 47 ==> program_to_execute(program, Ok(dir)) == Ok::<
                Seq<u8>,
                Seq<char>,
            >(dir + seq![47u8] + encode_utf8(program))
            &&& dir.len() > 0 && dir.last() == 47 ==> program_to_execute(program, Ok(dir)) == Ok::<
                Seq<u8>,
                Seq<char>,
            >(dir + encode_utf8(program))
            &&& dir.len() == 0 ==> program_to_execute(program, Ok(dir)) == Ok::<
                Seq<u8>,
                Seq<char>,
            >(encode_utf8(program))
        },
{
    if program.contains('/') && program[0] != '/' {
        lemma_encoded_slash(program);
        law_paths_meet_at_one_slash(dir, encode_utf8(program));
    }
}

/// The state database, the Codex home and the socket stand under their names in
/// the directory that each is looked for in.
pub proof fn law_default_places(dir: Seq<u8>, other: Seq<u8>)
    requires
        dir.len() > 0,
        dir.last() != 47,
    ensures
        state_db_path(dir) == dir + seq![47u8] + encode_utf8("state_5.sqlite"@),
        codex_home_path(Some(dir)) == dir + seq![47u8] + encode_utf8(".codex"@),
        codex_home_path(None) == encode_utf8("."@) + seq![47u8] + encode_utf8(".codex"@),
        socket_path(Some(dir), other) == dir + seq![47u8] + encode_utf8("codexdaemon.sock"@),
        socket_path(None, dir) == dir + seq![47u8] + encode_utf8("codexdaemon.sock"@),
        state_db_path(dir.push(47)) == state_db_path(dir),
        codex_home_path(Some(dir.push(47))) == codex_home_path(Some(dir)),
        socket_path(Some(dir.push(47)), other) == socket_path(Some(dir), other),
{
    reveal_strlit("state_5.sqlite");
    reveal_strlit(".codex");
    reveal_strlit(".");
    reveal_strlit("codexdaemon.sock");
    lemma_encoded_slash("state_5.sqlite"@);
    lemma_encoded_slash(".codex"@);
    lemma_encoded_slash("codexdaemon.sock"@);
    law_paths_meet_at_one_slash(dir, encode_utf8("state_5.sqlite"@));
    law_paths_meet_at_one_slash(dir, encode_utf8(".codex"@));
    law_paths_meet_at_one_slash(dir, encode_utf8("codexdaemon.sock"@));
    let dot = encode_utf8("."@);
    assert(dot =~= seq![46u8]) by {
        reveal_with_fuel(encode_utf8, 2);
        assert("."@ =~= seq!['.']);
        assert("."@.drop_first() =~= Seq::<char>::empty());
        assert((46u32 & 0x7f) as u8 == 46) by (bit_vector);
    }
    law_paths_meet_at_one_slash(dot, encode_utf8(".codex"@));
    assert(dir.push(47).last() == 47);
    assert(dir.push(47) =~= dir + seq![47u8]);
}

} // verus!
