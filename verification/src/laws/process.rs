//! Commands of processes.
use vstd::prelude::*;

use crate::pattern::whole;
use crate::procs::{clean_path, command_words, dir_of, found_of, info_of, launch_of, path_in, Seen};
use crate::text::{has_prefix, has_space, has_text, words, Str};

verus! {

/// The program that can be started again is the one of the command where it is found: a path where it is a file, one
/// relative to a directory only with a directory, a bare name among the directories of programs.
pub proof fn law_found(prog: Str, cwd: Option<Str>, seen: Seen)
    ensures
        ({
            let r = found_of(prog, cwd, seen);
            let whole = has_prefix(prog, "/"@);
            let path = has_text(prog, "/"@);
            &&& whole ==> r == (if seen.is_file {
                Some(prog)
            } else {
                None
            })
            &&& !whole && !path ==> r == (if seen.named {
                Some(prog)
            } else {
                None
            })
            &&& !whole && path ==> (r is Some <==> cwd is Some && seen.is_file)
            &&& !whole && path && r is Some ==> r->0 == clean_path(path_in(cwd->0, prog))
        }),
{
}

/// A command is started again with all its words but the program, which is the one that was found, and else the file that
/// the process runs. Nothing can be started without words, or where neither is there.
pub proof fn law_launch(cmd: Seq<Str>, cwd: Option<Str>, exe: Option<Str>, seen: Seen)
    ensures
        ({
            let w = command_words(cmd, seen.exists);
            let found = found_of(w[0], cwd, seen);
            let own = exe is Some && seen.exe_is_file;
            match launch_of(cmd, cwd, exe, seen) {
                Some(r) => {
                    &&& w.len() > 0 && r.len() == w.len()
                    &&& forall|i: int| 0 < i < w.len() ==> #[trigger] r[i] == w[i]
                    &&& found is Some ==> r[0] == found->0
                    &&& found is None ==> own && r[0] == exe->0
                },
                None => w.len() == 0 || found is None && !own,
            }
        }),
{
}

/// The words of a command are taken apart exactly where it is one argument with spaces that is no file.
pub proof fn law_command_words(cmd: Seq<Str>, exists: bool)
    ensures
        cmd.len() != 1 || exists || !has_space(cmd[0]) ==> command_words(cmd, exists) == cmd,
        cmd.len() == 1 && !exists && has_space(cmd[0]) ==> command_words(cmd, exists) == words(cmd[0], 0),
{
}

/// The process in a sandbox of flatpak is started by flatpak, with its arguments and no directory. Another keeps its
/// directory, and has the command that can be started again or none.
pub proof fn law_info(cmd: Seq<Str>, cwd: Option<Str>, flatpak: Option<Str>, usable: Option<Seq<Str>>)
    ensures
        ({
            let (c, d) = info_of(cmd, cwd, flatpak, usable);
            &&& flatpak matches Some(id) ==> d is None && c.len() >= 3 && c[0] == "flatpak"@ && c[1] == "run"@ && c[2] == id && (
            cmd.len() > 0 ==> c.len() == cmd.len() + 2 && forall|i: int| 0 < i < cmd.len() ==> c[i + 2] == #[trigger] cmd[i])
            &&& flatpak is None ==> d == cwd
            &&& flatpak is None && cmd.len() == 0 ==> c.len() == 0
            &&& flatpak is None && cmd.len() > 0 ==> (usable is Some ==> c == usable->0) && (usable is None ==> c.len() == 0)
        }),
{
}

/// A start takes the directory given where it exists, and the home directory else; there is a warning exactly where the
/// directory given does not exist.
pub proof fn law_start_dir(cwd: Option<Str>, is_dir: bool, home: Str)
    ensures
        ({
            let (d, warning) = dir_of(cwd, is_dir, home);
            &&& d == (if cwd is Some && is_dir {
                cwd->0
            } else {
                home
            })
            &&& warning is Some <==> cwd is Some && !is_dir
        }),
{
}

} // verus!
