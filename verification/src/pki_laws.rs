//! What the parts of a configuration mean, and which instructions they come to.

use vstd::prelude::*;
use vstd::utf8::encode_utf8;

use crate::pki::{
    command_views, commands_of, dir_spec, hidden, index_ok, pack_of, packs_of, pushed, pushed_all,
    ran, ArgKind, ArgView, Command, CommandView, ConfigView, DirSpec, DirView, FileRef, NoPack,
    PackConfig, PackConfigView, PackView,
};
use crate::text::{lower, texts};
use crate::text_laws::{law_split_first, law_split_last};

verus! {

/// A directory specification has up to three parts with `=` between them. The first
/// is the directory and the third the filter, both in small letters. Directories
/// inside are meant too unless the second is `0`. Where a part is left out, they are
/// meant, and there is no filter.
pub proof fn law_dir_spec(directory: Seq<char>, recursive: Seq<char>, filter: Seq<char>)
    requires
        !directory.contains('='),
        !recursive.contains('='),
    ensures
        dir_spec(directory) == (DirView {
            directory: lower(directory),
            recurse_subdirectories: true,
            filter_wildcard: Seq::<char>::empty(),
        }),
        dir_spec(directory.push('=') + recursive) == (DirView {
            directory: lower(directory),
            recurse_subdirectories: recursive != seq!['0'],
            filter_wildcard: Seq::<char>::empty(),
        }),
        dir_spec(directory.push('=') + recursive.push('=') + filter) == (DirView {
            directory: lower(directory),
            recurse_subdirectories: recursive != seq!['0'],
            filter_wildcard: lower(filter),
        }),
{
    reveal_strlit("0");
    assert("0"@ =~= seq!['0']);
    let rest = recursive.push('=') + filter;
    law_split_first(directory, '=', recursive);
    law_split_first(directory, '=', rest);
    law_split_first(recursive, '=', filter);
    assert(directory.push('=') + recursive.push('=') + filter =~= directory.push('=') + rest);
}

/// A file name stands for a directory just where it has a `*` behind its last
/// backslash: for the files in the directory before the backslash that match what
/// is behind it, and not for those in directories inside.
pub proof fn law_hidden_glob(directory: Seq<char>, name: Seq<char>)
    requires
        !name.contains('\\'),
    ensures
        hidden(name) is None,
        name.contains('*') ==> hidden(directory.push('\\') + name) == Some(
            DirView { directory, recurse_subdirectories: false, filter_wildcard: name },
        ),
        !name.contains('*') ==> hidden(directory.push('\\') + name) is None,
{
    law_split_last(directory, '\\', name);
}

/// A pack has a file name in small letters, is compressed as asked for, and has one
/// instruction for each directory and file, in the order of the configuration:
/// directories to take in, directories to leave out, files to take in, files to
/// leave out.
pub proof fn law_pack(name: Seq<char>, config: PackConfigView, i: int)
    ensures
        ({
            let pack = pack_of(name, config);
            let a = config.dirs.len();
            let b = config.exclude_dirs.len();
            let c = config.files.len();
            let d = config.exclude_files.len();
            &&& pack.name == lower("pack\\"@ + name + ".pk"@)
            &&& pack.compressed == config.compress
            &&& pack.args.len() == a + b + c + d
            &&& 0 <= i < a ==> {
                let dir = dir_spec(config.dirs[i]);
                pack.args[i] == (ArgView {
                    adds: true,
                    name: dir.directory,
                    kind: ArgKind::Dir {
                        recurse: dir.recurse_subdirectories,
                        filter: dir.filter_wildcard,
                    },
                })
            }
            &&& 0 <= i < b ==> {
                let dir = dir_spec(config.exclude_dirs[i]);
                pack.args[a + i] == (ArgView {
                    adds: false,
                    name: dir.directory,
                    kind: ArgKind::Dir {
                        recurse: dir.recurse_subdirectories,
                        filter: dir.filter_wildcard,
                    },
                })
            }
            &&& 0 <= i < c ==> match hidden(lower(config.files[i])) {
                Some(dir) => pack.args[a + b + i] == (ArgView {
                    adds: true,
                    name: dir.directory,
                    kind: ArgKind::Dir { recurse: false, filter: dir.filter_wildcard },
                }),
                None => pack.args[a + b + i] == (ArgView {
                    adds: true,
                    name: lower(config.files[i]),
                    kind: ArgKind::File,
                }),
            }
            &&& 0 <= i < d ==> match hidden(lower(config.exclude_files[i])) {
                Some(dir) => pack.args[a + b + c + i] == (ArgView {
                    adds: false,
                    name: dir.directory,
                    kind: ArgKind::Dir { recurse: false, filter: dir.filter_wildcard },
                }),
                None => pack.args[a + b + c + i] == (ArgView {
                    adds: true,
                    name: lower(config.exclude_files[i]),
                    kind: ArgKind::File,
                }),
            }
        }),
{
}

/// The commands of a pack begin it, name each directory and file in the order of
/// the configuration, and end it. What is to be left out is named by a command to
/// leave it out.
pub proof fn law_pack_commands(name: Seq<char>, config: PackConfigView, i: int)
    ensures
        ({
            let cmds = commands_of(name, config);
            let a = config.dirs.len();
            let b = config.exclude_dirs.len();
            let c = config.files.len();
            let d = config.exclude_files.len();
            &&& cmds.len() == a + b + c + d + 2
            &&& cmds[0] == (CommandView::Pack {
                filename: lower("pack\\"@ + name + ".pk"@),
                force_compression: config.compress,
            })
            &&& cmds[cmds.len() - 1] is EndPack
            &&& 0 <= i < a ==> cmds[1 + i] == CommandView::AddDir(dir_spec(config.dirs[i]))
            &&& 0 <= i < b ==> cmds[1 + a + i] == CommandView::RemDir(
                dir_spec(config.exclude_dirs[i]),
            )
            &&& 0 <= i < c ==> match hidden(lower(config.files[i])) {
                Some(dir) => cmds[1 + a + b + i] == CommandView::AddDir(dir),
                None => cmds[1 + a + b + i] == (CommandView::AddFile {
                    filename: lower(config.files[i]),
                }),
            }
            &&& 0 <= i < d ==> match hidden(lower(config.exclude_files[i])) {
                Some(dir) => cmds[1 + a + b + c + i] == CommandView::RemDir(dir),
                None => cmds[1 + a + b + c + i] == (CommandView::RemFile {
                    filename: lower(config.exclude_files[i]),
                }),
            }
        }),
{
}

/// The packs of a configuration come one by one, in its order.
pub proof fn law_packs_come_in_order(entries: Seq<(Seq<char>, PackConfigView)>, i: int)
    requires
        0 <= i < entries.len(),
    ensures
        packs_of(entries).len() == entries.len(),
        packs_of(entries)[i] == pack_of(entries[i].0, entries[i].1),
{
}

/// A path command replaces that path, and nothing else.
pub proof fn law_path_commands(s: ConfigView, path: Seq<char>)
    ensures
        pushed(s, CommandView::CurrentDirectory(path)) == (ConfigView {
            directory: encode_utf8(path),
            ..s
        }),
        pushed(s, CommandView::PackIndex(path)) == (ConfigView { output: encode_utf8(path), ..s }),
        pushed(s, CommandView::ManifestFile(path)) == (ConfigView {
            manifest: encode_utf8(path),
            ..s
        }),
        pushed(s, CommandView::EndPack) == s,
{
}

/// A pack goes behind the others, without instructions.
pub proof fn law_pack_is_begun(s: ConfigView, filename: Seq<char>, force_compression: bool)
    ensures
        pushed(s, CommandView::Pack { filename, force_compression }) == (ConfigView {
            packs: s.packs + seq![
                PackView {
                    name: filename,
                    compressed: force_compression,
                    args: Seq::<ArgView>::empty(),
                },
            ],
            ..s
        }),
{
    let t = pushed(s, CommandView::Pack { filename, force_compression });
    assert(t.packs =~= s.packs + seq![
        PackView {
            name: filename,
            compressed: force_compression,
            args: Seq::<ArgView>::empty(),
        },
    ]);
}

/// A command about a pack adds one instruction, at the end of those of the last
/// pack, and changes nothing else.
pub proof fn law_last_pack_is_meant(s: ConfigView, dir: DirView, filename: Seq<char>)
    requires
        s.packs.len() > 0,
    ensures
        forall|cmd: CommandView|
            #![trigger pushed(s, cmd)]
            cmd == CommandView::AddDir(dir) || cmd == CommandView::RemDir(dir) || cmd == (
            CommandView::AddFile { filename }) || cmd == (CommandView::RemFile { filename }) ==> {
                let t = pushed(s, cmd);
                let last = t.packs[s.packs.len() - 1];
                &&& t.directory == s.directory && t.output == s.output && t.manifest == s.manifest
                    && t.prefix == s.prefix
                &&& t.packs.len() == s.packs.len()
                &&& forall|i: int|
                    0 <= i < s.packs.len() - 1 ==> #[trigger] t.packs[i] == s.packs[i]
                &&& last.name == s.packs.last().name
                &&& last.compressed == s.packs.last().compressed
                &&& last.args.len() == s.packs.last().args.len() + 1
                &&& last.args.drop_last() == s.packs.last().args
                &&& cmd is AddDir || cmd is RemDir ==> last.args.last() == (ArgView {
                    adds: cmd is AddDir,
                    name: dir.directory,
                    kind: ArgKind::Dir {
                        recurse: dir.recurse_subdirectories,
                        filter: dir.filter_wildcard,
                    },
                })
                &&& cmd is AddFile || cmd is RemFile ==> last.args.last() == (ArgView {
                    adds: true,
                    name: filename,
                    kind: ArgKind::File,
                })
            },
{
    assert forall|cmd: CommandView|
        #![trigger pushed(s, cmd)]
        cmd == CommandView::AddDir(dir) || cmd == CommandView::RemDir(dir) || cmd == (
        CommandView::AddFile { filename }) || cmd == (CommandView::RemFile {
            filename,
        }) implies pushed(s, cmd).packs[s.packs.len() - 1].args.drop_last()
        == s.packs.last().args by {
        assert(pushed(s, cmd).packs[s.packs.len() - 1].args.drop_last()
            =~= s.packs.last().args);
    }
}

/// A command is carried out, unless it is about a pack and there is none, which
/// alone is an error. Without a command, and on an error, nothing changes.
pub proof fn law_ran(
    before: ConfigView,
    cmd: Option<CommandView>,
    after: ConfigView,
    r: Result<(), NoPack>,
)
    requires
        ran(before, cmd, after, r),
    ensures
        r is Err <==> before.packs.len() == 0 && (cmd matches Some(c) && (c is AddDir || c is RemDir
            || c is AddFile || c is RemFile)),
        r is Err || cmd is None ==> after == before,
        r is Ok ==> (cmd matches Some(c) ==> after == pushed(before, c)),
{
}

/// Commands are carried out one after the other.
pub proof fn law_commands_go_in_order(s: ConfigView, cmds: Seq<CommandView>, cmd: CommandView)
    ensures
        pushed_all(s, Seq::<CommandView>::empty()) == s,
        pushed_all(s, cmds.push(cmd)) == pushed(pushed_all(s, cmds), cmd),
{
    assert(cmds.push(cmd).drop_last() =~= cmds);
}

/// An index can be pruned just where every file is in an archive that there is.
pub proof fn law_which_indices_can_be_pruned(archives: Seq<Seq<char>>, files: Map<u32, FileRef>)
    ensures
        index_ok(archives, files) <==> forall|crc: u32| #[trigger]
            files.contains_key(crc) ==> files[crc].pack_file < archives.len(),
{
}

/// The values of a configuration stand for all that is in them.
pub proof fn law_views(
    dir: DirSpec,
    config: PackConfig,
    text: String,
    compress: bool,
    cmds: Seq<Command>,
)
    ensures
        dir@.directory == dir.directory@ && dir@.recurse_subdirectories
            == dir.recurse_subdirectories && dir@.filter_wildcard == dir.filter_wildcard@,
        config@.compress == config.compress && config@.dirs == texts(config.dirs@) && config@.files
            == texts(config.files@) && config@.exclude_files == texts(config.exclude_files@)
            && config@.exclude_dirs == texts(config.exclude_dirs@),
        Command::CurrentDirectory(text)@ == CommandView::CurrentDirectory(text@),
        Command::PackIndex(text)@ == CommandView::PackIndex(text@),
        Command::ManifestFile(text)@ == CommandView::ManifestFile(text@),
        (Command::Pack { filename: text, force_compression: compress })@ == (CommandView::Pack {
            filename: text@,
            force_compression: compress,
        }),
        Command::AddDir(dir)@ == CommandView::AddDir(dir@),
        Command::RemDir(dir)@ == CommandView::RemDir(dir@),
        (Command::AddFile { filename: text })@ == (CommandView::AddFile { filename: text@ }),
        (Command::RemFile { filename: text })@ == (CommandView::RemFile { filename: text@ }),
        Command::EndPack@ is EndPack,
        command_views(cmds).len() == cmds.len(),
        forall|i: int| 0 <= i < cmds.len() ==> #[trigger] command_views(cmds)[i] == cmds[i]@,
{
}

} // verus!
