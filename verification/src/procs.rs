//! Processes: what their files say and how to start a window again.
use vstd::prelude::*;

use crate::text::{
    any_space, contains, copy_all, has_prefix, has_space, has_suffix, has_text, is_digit, join, joined, last_index,
    oview, parse_i32, parsed_signed, pieces, rsplit_at, same, split, split_words, starts, strip, strip_end, views, words, Str,
};

verus! {

broadcast use crate::text::group_views;

// ---- Bytes --------------------------------------------------------------------

/// The text that bytes make (`String::from_utf8_lossy`).
pub uninterp spec fn utf8_lossy(b: Seq<u8>) -> Seq<char>;

/// `String::from_utf8_lossy`: the text that bytes make. Bytes that are valid UTF-8 make the text they
/// encode; what stands in place of others is not stated here, only that the same bytes make the same
/// text.
#[verifier::external_body]
fn lossy(b: &[u8]) -> (r: String)
    ensures
        r@ == utf8_lossy(b@),
        vstd::utf8::valid_utf8(b@) ==> r@ == vstd::utf8::decode_utf8(b@),
{
    String::from_utf8_lossy(b).into_owned()
}

/// The value of a hexadecimal digit.
pub open spec fn hex_value(b: u8) -> Option<u8> {
    if 48 <= b <= 57 {
        Some((b - 48) as u8)
    } else if 97 <= b <= 102 {
        Some((b - 87) as u8)
    } else if 65 <= b <= 70 {
        Some((b - 55) as u8)
    } else {
        None
    }
}

/// The byte that two characters write down in hexadecimal; a plus sign may stand before one digit.
pub open spec fn hex_byte(a: u8, b: u8) -> Option<u8> {
    match hex_value(b) {
        None => None,
        Some(y) => if a == 43 {
            Some(y)
        } else {
            match hex_value(a) {
                Some(x) => Some((x * 16 + y) as u8),
                None => None,
            }
        },
    }
}

/// An escaped byte `\xNN` begins at `i`.
pub open spec fn escape_at(b: Seq<u8>, i: int) -> Option<u8> {
    if i + 4 <= b.len() && b[i] == 92 && b[i + 1] == 120 {
        hex_byte(b[i + 2], b[i + 3])
    } else {
        None
    }
}

/// The bytes from `i` on with every escaped byte read.
pub open spec fn unescaped_from(b: Seq<u8>, i: int) -> Seq<u8>
    decreases b.len() - i,
{
    if i >= b.len() {
        Seq::empty()
    } else {
        match escape_at(b, i) {
            Some(x) => seq![x] + unescaped_from(b, i + 4),
            None => seq![b[i]] + unescaped_from(b, i + 1),
        }
    }
}

/// A name of a unit with every escaped byte `\xNN` read.
pub open spec fn unit_name(s: Str) -> Str {
    utf8_lossy(unescaped_from(vstd::utf8::encode_utf8(s), 0))
}

fn hex(b: u8) -> (r: Option<u8>)
    ensures
        r == hex_value(b),
        r matches Some(x) ==> x < 16,
{
    if 48 <= b && b <= 57 {
        Some(b - 48)
    } else if 97 <= b && b <= 102 {
        Some(b - 87)
    } else if 65 <= b && b <= 70 {
        Some(b - 55)
    } else {
        None
    }
}

fn read_escape(b: &[u8], i: usize) -> (r: Option<u8>)
    requires
        i < b.len(),
    ensures
        r == escape_at(b@, i as int),
        r is Some ==> i + 4 <= b.len(),
{
    if b.len() - i < 4 || b[i] != 92 || b[i + 1] != 120 {
        return None;
    }
    let y: u8 = match hex(b[i + 3]) {
        Some(y) => y,
        None => return None,
    };
    if b[i + 2] == 43 {
        return Some(y);
    }
    match hex(b[i + 2]) {
        Some(x) => Some(x * 16 + y),
        None => None,
    }
}

/// A name of a unit of systemd with every escaped byte `\xNN` read: that is how systemd writes special
/// characters.
pub fn unescape_unit(s: &str) -> (r: String)
    ensures
        r@ == unit_name(s@),
{
    let b = s.as_bytes();
    let ghost all = vstd::utf8::encode_utf8(s@);
    let mut out: Vec<u8> = Vec::new();
    let mut i: usize = 0;
    proof {
        assert(out@ + unescaped_from(all, 0) =~= unescaped_from(all, 0));
    }
    while i < b.len()
        invariant
            i <= b.len(),
            b@ == all,
            out@ + unescaped_from(all, i as int) == unescaped_from(all, 0),
        decreases b.len() - i,
    {
        let ghost was = out@;
        match read_escape(b, i) {
            Some(x) => {
                out.push(x);
                proof {
                    assert(out@ + unescaped_from(all, i + 4) =~= was + (seq![x] + unescaped_from(all, i + 4)));
                }
                i = i + 4;
            },
            None => {
                out.push(b[i]);
                proof {
                    assert(out@ + unescaped_from(all, i + 1) =~= was + (seq![b@[i as int]] + unescaped_from(
                        all,
                        i + 1,
                    )));
                }
                i = i + 1;
            },
        }
    }
    proof {
        assert(out@ + Seq::<u8>::empty() =~= out@);
    }
    lossy(out.as_slice())
}

proof fn lemma_unescaped_plain(b: Seq<u8>, i: int)
    requires
        0 <= i <= b.len(),
        forall|k: int| 0 <= k < b.len() ==> #[trigger] b[k] != 92,
    ensures
        unescaped_from(b, i) == b.skip(i),
    decreases b.len() - i,
{
    if i < b.len() {
        assert(b[i] != 92);
        lemma_unescaped_plain(b, i + 1);
        assert(b.skip(i) =~= seq![b[i]] + b.skip(i + 1));
    } else {
        assert(b.skip(i) =~= Seq::empty());
    }
}

/// Bytes without a backslash are read as they are.
pub proof fn law_plain_unit(b: Seq<u8>)
    requires
        forall|k: int| 0 <= k < b.len() ==> #[trigger] b[k] != 92,
    ensures
        unescaped_from(b, 0) == b,
{
    lemma_unescaped_plain(b, 0);
    assert(b.skip(0) =~= b);
}

// ---- Flatpak ------------------------------------------------------------------

/// The name of the unit of an application of flatpak.
pub open spec fn is_flatpak_unit(s: Str) -> bool {
    has_prefix(s, "app-flatpak-"@) && has_suffix(s, ".scope"@)
}

/// The first of the parts from `i` on that names the unit of an application of flatpak.
pub open spec fn unit_from(parts: Seq<Str>, i: int) -> Option<Str>
    decreases parts.len() - i,
{
    if i >= parts.len() {
        None
    } else if is_flatpak_unit(parts[i]) {
        Some(parts[i])
    } else {
        unit_from(parts, i + 1)
    }
}

/// The first unit of an application of flatpak in the lines from `i` on.
pub open spec fn unit_in_lines(lines: Seq<Str>, i: int) -> Option<Str>
    decreases lines.len() - i,
{
    if i >= lines.len() {
        None
    } else {
        match unit_from(pieces(lines[i], '/', 0), 0) {
            Some(u) => Some(u),
            None => unit_in_lines(lines, i + 1),
        }
    }
}

/// The text is made of digits.
pub open spec fn is_number(s: Str) -> bool {
    s.len() > 0 && crate::text::all_digits(s)
}

/// The identifier in the middle of the name of a unit, without the number that systemd adds.
pub open spec fn unit_id(body: Str) -> Str {
    let i = last_index(body, '-');
    if i > 0 && is_number(body.skip(i + 1)) {
        body.take(i)
    } else {
        body
    }
}

/// The identifier of the application of flatpak that the unit of a process names.
pub open spec fn flatpak_of(cgroup: Str) -> Option<Str> {
    match unit_in_lines(pieces(cgroup, '\n', 0), 0) {
        None => None,
        Some(u) => {
            let rest = u.skip("app-flatpak-"@.len() as int);
            if !has_suffix(rest, ".scope"@) {
                None
            } else {
                let id = unit_name(unit_id(rest.take(rest.len() - ".scope"@.len())));
                if id.len() > 0 {
                    Some(id)
                } else {
                    None
                }
            }
        },
    }
}

fn find_unit(parts: &[String]) -> (r: Option<String>)
    ensures
        oview(r) == unit_from(views(parts@), 0),
{
    let ghost s = views(parts@);
    let mut i: usize = 0;
    while i < parts.len()
        invariant
            i <= parts.len(),
            s == views(parts@),
            unit_from(s, 0) == unit_from(s, i as int),
        decreases parts.len() - i,
    {
        let p = parts[i].as_str();
        assert(s[i as int] == p@);
        if starts(p, "app-flatpak-") && strip_end(p, ".scope").is_some() {
            return Some(parts[i].clone());
        }
        i = i + 1;
    }
    None
}

fn find_in_lines(lines: &[String]) -> (r: Option<String>)
    ensures
        oview(r) == unit_in_lines(views(lines@), 0),
{
    let ghost s = views(lines@);
    let mut i: usize = 0;
    while i < lines.len()
        invariant
            i <= lines.len(),
            s == views(lines@),
            unit_in_lines(s, 0) == unit_in_lines(s, i as int),
        decreases lines.len() - i,
    {
        assert(s[i as int] == lines@[i as int]@);
        let parts = split(lines[i].as_str(), '/');
        if let Some(u) = find_unit(parts.as_slice()) {
            return Some(u);
        }
        i = i + 1;
    }
    None
}

fn number(s: &str) -> (r: bool)
    ensures
        r == is_number(s@),
{
    let v = crate::text::chars_of(s);
    let mut i: usize = 0;
    while i < v.len()
        invariant
            i <= v.len(),
            v@ == s@,
            forall|k: int| 0 <= k < i ==> is_digit(#[trigger] s@[k]),
        decreases v.len() - i,
    {
        if !crate::text::digit(v[i]) {
            assert(!is_digit(s@[i as int]));
            return false;
        }
        i = i + 1;
    }
    v.len() > 0
}

/// The identifier of the application of flatpak by the control groups of a process
/// (`/proc/<pid>/cgroup`): a process in a sandbox lies in a unit
/// `app-flatpak-<identifier>-<number>.scope`. None for other processes.
pub fn flatpak_app_id(cgroup: &str) -> (r: Option<String>)
    ensures
        oview(r) == flatpak_of(cgroup@),
{
    let lines = split(cgroup, '\n');
    let unit = match find_in_lines(lines.as_slice()) {
        Some(u) => u,
        None => return None,
    };
    let rest = match strip(unit.as_str(), "app-flatpak-") {
        Some(t) => t,
        None => {
            proof {
                lemma_unit_in_lines(views(lines@), 0);
            }
            return None;
        },
    };
    let body = match strip_end(rest, ".scope") {
        Some(t) => t,
        None => return None,
    };
    let id = match rsplit_at(body, '-') {
        Some((a, b)) => if !a.is_empty() && number(b) {
            a
        } else {
            body
        },
        None => body,
    };
    let name = unescape_unit(id);
    if name.as_str().is_empty() {
        None
    } else {
        Some(name)
    }
}

proof fn lemma_unit_in(parts: Seq<Str>, i: int)
    requires
        0 <= i <= parts.len(),
    ensures
        unit_from(parts, i) matches Some(u) ==> is_flatpak_unit(u),
    decreases parts.len() - i,
{
    if i < parts.len() {
        lemma_unit_in(parts, i + 1);
    }
}

proof fn lemma_unit_in_lines(lines: Seq<Str>, i: int)
    requires
        0 <= i <= lines.len(),
    ensures
        unit_in_lines(lines, i) matches Some(u) ==> is_flatpak_unit(u),
    decreases lines.len() - i,
{
    if i < lines.len() {
        lemma_unit_in(pieces(lines[i], '/', 0), 0);
        lemma_unit_in_lines(lines, i + 1);
    }
}

// ---- The command line of a process ----------------------------------------------

/// Where the part that begins at `i` ends: at the next zero byte.
pub open spec fn part_end(b: Seq<u8>, i: int) -> int
    decreases b.len() - i,
{
    if i < b.len() && b[i] != 0 {
        part_end(b, i + 1)
    } else {
        i
    }
}

proof fn lemma_part_end(b: Seq<u8>, i: int)
    requires
        0 <= i <= b.len(),
    ensures
        i <= part_end(b, i) <= b.len(),
    decreases b.len() - i,
{
    if i < b.len() && b[i] != 0 {
        lemma_part_end(b, i + 1);
    }
}

/// The parts from `i` on between zero bytes, without empty ones.
pub open spec fn cmd_parts(b: Seq<u8>, i: int) -> Seq<Str>
    decreases b.len() - i,
    when 0 <= i <= b.len()
    via cmd_parts_decreases
{
    if i >= b.len() {
        Seq::empty()
    } else {
        let j = part_end(b, i);
        if j >= b.len() {
            seq![utf8_lossy(b.subrange(i, b.len() as int))]
        } else if j == i {
            cmd_parts(b, i + 1)
        } else {
            seq![utf8_lossy(b.subrange(i, j))] + cmd_parts(b, j + 1)
        }
    }
}

#[via_fn]
proof fn cmd_parts_decreases(b: Seq<u8>, i: int) {
    lemma_part_end(b, i);
}

/// The arguments of a process by its file `/proc/<pid>/cmdline`: they stand between zero bytes.
pub fn cmdline(b: &[u8]) -> (r: Vec<String>)
    ensures
        views(r@) == cmd_parts(b@, 0),
{
    let mut out: Vec<String> = Vec::new();
    let mut i: usize = 0;
    proof {
        assert(views(out@) + cmd_parts(b@, 0) =~= cmd_parts(b@, 0));
    }
    while i < b.len()
        invariant
            i <= b.len(),
            views(out@) + cmd_parts(b@, i as int) == cmd_parts(b@, 0),
        decreases b.len() - i,
    {
        let mut j: usize = i;
        while j < b.len() && b[j] != 0
            invariant
                i <= j <= b.len(),
                part_end(b@, i as int) == part_end(b@, j as int),
            decreases b.len() - j,
        {
            j = j + 1;
        }
        let ghost was = views(out@);
        if j > i {
            out.push(lossy(vstd::slice::slice_subrange(b, i, j)));
        }
        if j >= b.len() {
            proof {
                assert(views(out@) =~= was + cmd_parts(b@, i as int));
            }
            return out;
        }
        proof {
            let rest = cmd_parts(b@, j + 1);
            if j > i {
                assert(views(out@) + rest =~= was + (seq![utf8_lossy(b@.subrange(i as int, j as int))] + rest));
            }
        }
        i = j + 1;
    }
    proof {
        assert(views(out@) + Seq::<Str>::empty() =~= views(out@));
    }
    out
}

/// The command that starts an application of flatpak with the arguments of a process.
pub open spec fn flatpak_run(id: Str, cmd: Seq<Str>) -> Seq<Str> {
    seq!["flatpak"@, "run"@, id] + (if cmd.len() > 0 {
        cmd.skip(1)
    } else {
        cmd
    })
}

fn flatpak_command(id: String, cmd: &[String]) -> (r: Vec<String>)
    ensures
        views(r@) == flatpak_run(id@, views(cmd@)),
{
    let mut out: Vec<String> = Vec::new();
    let ghost name = id@;
    out.push("flatpak".to_owned());
    out.push("run".to_owned());
    out.push(id);
    let ghost head = seq!["flatpak"@, "run"@, name];
    proof {
        assert(views(out@) =~= head);
    }
    let ghost s = views(cmd@);
    let mut i: usize = 1;
    proof {
        if s.len() > 0 {
            assert(head + s.subrange(1, 1) =~= head);
        } else {
            assert(head + s =~= head);
        }
    }
    while i < cmd.len()
        invariant
            1 <= i,
            s == views(cmd@),
            i <= cmd.len() || cmd.len() == 0,
            head == seq!["flatpak"@, "run"@, name],
            cmd.len() > 0 ==> views(out@) == head + s.subrange(1, i as int),
            cmd.len() == 0 ==> views(out@) == head + s,
        decreases cmd.len() - i,
    {
        out.push(cmd[i].clone());
        proof {
            assert(s.subrange(1, i + 1) =~= s.subrange(1, i as int).push(s[i as int]));
            assert(head + s.subrange(1, i + 1) =~= (head + s.subrange(1, i as int)).push(s[i as int]));
        }
        i = i + 1;
    }
    proof {
        if s.len() > 0 {
            assert(s.subrange(1, s.len() as int) =~= s.skip(1));
        }
    }
    out
}

/// How the program of a command is found.
#[derive(Debug, Clone, Copy, PartialEq, Eq, Structural)]
pub enum Program {
    /// By its path.
    Absolute,
    /// By its path from the directory of the process.
    Relative,
    /// Among the directories of programs.
    Named,
}

/// How the program is found.
pub open spec fn program_of(prog: Str) -> Program {
    if has_prefix(prog, "/"@) {
        Program::Absolute
    } else if has_text(prog, "/"@) {
        Program::Relative
    } else {
        Program::Named
    }
}

/// How the program is found.
pub fn program_kind(prog: &str) -> (r: Program)
    ensures
        r == program_of(prog@),
{
    if starts(prog, "/") {
        Program::Absolute
    } else if contains(prog, "/") {
        Program::Relative
    } else {
        Program::Named
    }
}

/// The words of a command: a single argument with spaces that is no file is taken apart, for browsers
/// write their whole command line into one argument.
pub open spec fn command_words(cmd: Seq<Str>, exists: bool) -> Seq<Str> {
    if cmd.len() == 1 && has_space(cmd[0]) && !exists {
        words(cmd[0], 0)
    } else {
        cmd
    }
}

/// The words of a command; `exists` says that the first argument as it stands is a file.
pub fn split_command(cmd: &[String], exists: bool) -> (r: Vec<String>)
    ensures
        views(r@) == command_words(views(cmd@), exists),
{
    assert(views(cmd@).len() == cmd.len());
    if cmd.len() == 1 && any_space(cmd[0].as_str()) && !exists {
        assert(views(cmd@)[0] == cmd@[0]@);
        split_words(cmd[0].as_str())
    } else {
        assert(cmd.len() == 1 ==> views(cmd@)[0] == cmd@[0]@);
        copy_all(cmd)
    }
}

/// A path from a directory on (`Path::join` of a path that is not absolute).
pub open spec fn path_in(dir: Str, path: Str) -> Str {
    if dir.len() == 0 || dir.last() == '/' {
        dir + path
    } else {
        dir + "/"@ + path
    }
}

/// Those of the first `n` pieces of a path that say something: empty ones do not, nor does `.` but at the
/// beginning.
pub open spec fn path_parts(s: Seq<Str>, n: int) -> Seq<Str>
    decreases n,
{
    if n <= 0 {
        Seq::empty()
    } else if s[n - 1].len() == 0 || (s[n - 1] == "."@ && n > 1) {
        path_parts(s, n - 1)
    } else {
        path_parts(s, n - 1).push(s[n - 1])
    }
}

/// A path without pieces that say nothing (`Path::components`).
pub open spec fn clean_path(s: Str) -> Str {
    let p = pieces(s, '/', 0);
    let rest = joined(path_parts(p, p.len() as int), "/"@);
    if has_prefix(s, "/"@) {
        "/"@ + rest
    } else {
        rest
    }
}

fn make_clean(s: &str) -> (r: String)
    ensures
        r@ == clean_path(s@),
{
    let p = split(s, '/');
    let ghost all = views(p@);
    let mut out: Vec<String> = Vec::new();
    let mut i: usize = 0;
    proof {
        assert(views(out@) =~= Seq::empty());
    }
    while i < p.len()
        invariant
            i <= p.len(),
            all == views(p@),
            views(out@) == path_parts(all, i as int),
        decreases p.len() - i,
    {
        assert(all[i as int] == p@[i as int]@);
        let t = p[i].as_str();
        if !(t.unicode_len() == 0 || (same(t, ".") && i > 0)) {
            out.push(p[i].clone());
        }
        i = i + 1;
    }
    assert(all.len() == p.len());
    let rest = join(out.as_slice(), "/");
    if starts(s, "/") {
        let mut r = "/".to_owned();
        r.append(rest.as_str());
        r
    } else {
        rest
    }
}

/// The file to look for: the path as it stands, or from the directory of the process on. A bare name is looked
/// for among the directories of programs.
pub open spec fn place_of_program(prog: Str, cwd: Option<Str>) -> Option<Str> {
    match program_of(prog) {
        Program::Absolute => Some(prog),
        Program::Relative => match cwd {
            Some(d) => Some(path_in(d, prog)),
            None => None,
        },
        Program::Named => None,
    }
}

/// The file to look for, where the program is not looked for by its name.
pub fn program_place(prog: &str, cwd: Option<&str>) -> (r: Option<String>)
    ensures
        oview(r) == place_of_program(prog@, oview(cwd)),
{
    match program_kind(prog) {
        Program::Absolute => Some(prog.to_owned()),
        Program::Relative => match cwd {
            Some(d) => {
                let mut s = d.to_owned();
                if d.unicode_len() > 0 && strip_end(d, "/").is_none() {
                    s.append("/");
                }
                s.append(prog);
                proof {
                    reveal_strlit("/");
                    if d@.len() > 0 {
                        assert(has_suffix(d@, "/"@) == (d@.last() == '/')) by {
                            assert(d@.skip(d@.len() - 1) =~= seq![d@.last()]);
                            assert("/"@ =~= seq!['/']);
                            assert(seq![d@.last()][0] == d@.last());
                        }
                    }
                    assert(s@ =~= path_in(d@, prog@));
                }
                Some(s)
            },
            None => None,
        },
        Program::Named => None,
    }
}

/// What the file system says of a command.
#[derive(Debug, Clone, Copy, PartialEq, Eq, Structural)]
pub struct Seen {
    /// The first argument as it stands is there.
    pub exists: bool,
    /// The file to look for is a file.
    pub is_file: bool,
    /// The bare name is among the directories of programs.
    pub named: bool,
    /// The file that the process runs is a file.
    pub exe_is_file: bool,
}

/// The program of a command as it was found.
pub open spec fn found_of(prog: Str, cwd: Option<Str>, seen: Seen) -> Option<Str> {
    match program_of(prog) {
        Program::Named => if seen.named {
            Some(prog)
        } else {
            None
        },
        Program::Absolute => if seen.is_file {
            Some(prog)
        } else {
            None
        },
        Program::Relative => match place_of_program(prog, cwd) {
            Some(p) => if seen.is_file {
                Some(clean_path(p))
            } else {
                None
            },
            None => None,
        },
    }
}

/// The program of a command as it was found: a path as it stands, one from the directory of the process on as
/// a whole path without pieces that say nothing, a bare name as it stands.
pub fn found_program(prog: &str, cwd: Option<&str>, seen: Seen) -> (r: Option<String>)
    ensures
        oview(r) == found_of(prog@, oview(cwd), seen),
{
    match program_kind(prog) {
        Program::Named => if seen.named {
            Some(prog.to_owned())
        } else {
            None
        },
        Program::Absolute => if seen.is_file {
            Some(prog.to_owned())
        } else {
            None
        },
        Program::Relative => match program_place(prog, cwd) {
            Some(p) => if seen.is_file {
                Some(make_clean(p.as_str()))
            } else {
                None
            },
            None => None,
        },
    }
}

/// A command in a form that can be started again: its words with the program that was found, else with the file
/// that the process runs; none without words or without a program.
pub open spec fn launch_of(cmd: Seq<Str>, cwd: Option<Str>, exe: Option<Str>, seen: Seen) -> Option<Seq<Str>> {
    let words = command_words(cmd, seen.exists);
    if words.len() == 0 {
        None
    } else {
        match found_of(words[0], cwd, seen) {
            Some(p) => Some(words.update(0, p)),
            None => match exe {
                Some(p) => if seen.exe_is_file {
                    Some(words.update(0, p))
                } else {
                    None
                },
                None => None,
            },
        }
    }
}

/// What an optional list of texts says.
pub open spec fn olist(o: Option<Vec<String>>) -> Option<Seq<Str>> {
    match o {
        Some(v) => Some(views(v@)),
        None => None,
    }
}

/// A command of a process in a form that can be started again. `cwd` is the directory of the process, `exe` the
/// file that it runs, `seen` what the file system says of them. None where there is nothing to start.
pub fn launchable(cmd: &[String], cwd: Option<&str>, exe: Option<&str>, seen: Seen) -> (r: Option<Vec<String>>)
    ensures
        olist(r) == launch_of(views(cmd@), oview(cwd), oview(exe), seen),
{
    let mut out = split_command(cmd, seen.exists);
    let ghost all = views(out@);
    assert(all.len() == out.len());
    if out.len() == 0 {
        return None;
    }
    assert(all[0] == out@[0]@);
    let prog = match found_program(out[0].as_str(), cwd, seen) {
        Some(p) => p,
        None => match exe {
            Some(p) => if seen.exe_is_file {
                p.to_owned()
            } else {
                return None;
            },
            None => return None,
        },
    };
    let ghost p = prog@;
    out.set(0, prog);
    proof {
        assert(views(out@) =~= all.update(0, p));
    }
    Some(out)
}

/// The command and the directory of the process of a window: one in a sandbox of flatpak is started by
/// flatpak and has no directory; a command whose program cannot be found is empty.
pub open spec fn info_of(
    cmd: Seq<Str>,
    cwd: Option<Str>,
    flatpak: Option<Str>,
    usable: Option<Seq<Str>>,
) -> (Seq<Str>, Option<Str>) {
    match flatpak {
        Some(id) => (flatpak_run(id, cmd), None),
        None => if cmd.len() == 0 {
            (cmd, cwd)
        } else {
            match usable {
                Some(c) => (c, cwd),
                None => (Seq::empty(), cwd),
            }
        },
    }
}

/// The command and the directory of the process of a window. `cmd` and `cwd` are what the process says,
/// `flatpak` the identifier of its sandbox, `usable` the command in a form that can be started again.
pub fn proc_info(
    cmd: Vec<String>,
    cwd: Option<String>,
    flatpak: Option<String>,
    usable: Option<Vec<String>>,
) -> (r: (Vec<String>, Option<String>))
    ensures
        (views(r.0@), oview(r.1)) == info_of(views(cmd@), oview(cwd), oview(flatpak), olist(usable)),
{
    if let Some(id) = flatpak {
        return (flatpak_command(id, cmd.as_slice()), None);
    }
    assert(views(cmd@).len() == cmd.len());
    if cmd.len() == 0 {
        return (cmd, cwd);
    }
    match usable {
        Some(c) => (c, cwd),
        None => {
            let none: Vec<String> = Vec::new();
            (none, cwd)
        },
    }
}

/// The directory to start in: the given one where it exists, else the home directory; and a warning where
/// the given one does not exist.
pub open spec fn dir_of(cwd: Option<Str>, is_dir: bool, home: Str) -> (Str, Option<Str>) {
    match cwd {
        Some(d) => if is_dir {
            (d, None)
        } else {
            (home, Some("каталога "@ + d + " нет, запуск в "@ + home))
        },
        None => (home, None),
    }
}

/// The directory to start in. `is_dir` says that the given one exists.
pub fn launch_dir(cwd: Option<&str>, is_dir: bool, home: &str) -> (r: (String, Option<String>))
    ensures
        (r.0@, oview(r.1)) == dir_of(oview(cwd), is_dir, home@),
{
    match cwd {
        Some(d) => if is_dir {
            (d.to_owned(), None)
        } else {
            let mut s = "каталога ".to_owned();
            s.append(d);
            s.append(" нет, запуск в ");
            s.append(home);
            (home.to_owned(), Some(s))
        },
        None => (home.to_owned(), None),
    }
}

// ---- The processes above ------------------------------------------------------

/// The process above by the file `/proc/<pid>/stat`: the second word after the last bracket.
pub open spec fn parent_of(stat: Str) -> Option<int> {
    let i = last_index(stat, ')');
    if i < 0 {
        None
    } else {
        let w = words(stat.skip(i + 1), 0);
        if w.len() > 1 {
            parsed_signed(w[1])
        } else {
            None
        }
    }
}

/// The process above by the file `/proc/<pid>/stat`.
pub fn parent(stat: &str) -> (r: Option<i32>)
    ensures
        r is Some <==> parent_of(stat@) is Some,
        r matches Some(p) ==> parent_of(stat@) == Some(p as int),
{
    match rsplit_at(stat, ')') {
        None => None,
        Some((_, rest)) => {
            let w = split_words(rest);
            assert(views(w@).len() == w.len());
            if w.len() > 1 {
                assert(views(w@)[1] == w@[1]@);
                parse_i32(w[1].as_str())
            } else {
                None
            }
        },
    }
}

/// The process to look at after `p`, where the chain goes on: it ends at the first process of the system
/// and after 64 processes.
pub open spec fn climb_of(len: int, stat: Option<Str>) -> Option<int> {
    match stat {
        None => None,
        Some(s) => match parent_of(s) {
            None => None,
            Some(p) => if p > 1 && len < 64 {
                Some(p)
            } else {
                None
            },
        },
    }
}

/// Put a process into the chain of a process and those above it. `stat` is its file `/proc/<pid>/stat`
/// where it can be read. Gives the process to look at next, where there is one.
pub fn ancestors(chain: &mut Vec<i32>, p: i32, stat: Option<&str>) -> (r: Option<i32>)
    ensures
        final(chain)@ == old(chain)@.push(p),
        r is Some <==> climb_of(final(chain)@.len() as int, oview(stat)) is Some,
        r matches Some(q) ==> climb_of(final(chain)@.len() as int, oview(stat)) == Some(q as int),
{
    chain.push(p);
    match stat {
        None => None,
        Some(s) => match parent(s) {
            None => None,
            Some(q) => if q > 1 && chain.len() < 64 {
                Some(q)
            } else {
                None
            },
        },
    }
}

} // verus!
