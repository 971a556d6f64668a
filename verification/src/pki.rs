//! Deciding which files go into which pack, and the index of the packs.

use assembly_pack::pki::gen::Config;
use assembly_pack::txt::gen::Command as TxtCommand;
use assembly_pack::txt::gen::DirSpec as TxtDirSpec;
use indexmap::IndexMap;
use std::collections::BTreeMap;
use vstd::prelude::*;
use vstd::utf8::encode_utf8;

use crate::text::{
    chars_of, lemma_lower_ascii, lower, rsplit_once, same_text, split_first, split_last,
    split_once, texts, to_lower,
};

verus! {

/// What to put into one pack.
#[derive(Debug, Clone, PartialEq)]
pub struct PackConfig {
    /// Whether to compress the files.
    pub compress: bool,
    /// Directories to take in.
    pub dirs: Vec<String>,
    /// Files to take in.
    pub files: Vec<String>,
    /// Files to leave out. Only a name with a wildcard behind its last backslash
    /// leaves files out: `assembly-pack` enters the command for any other name as it
    /// enters a file to take in.
    pub exclude_files: Vec<String>,
    /// Directories to leave out.
    pub exclude_dirs: Vec<String>,
}

/// The contents of a [`PackConfig`].
pub struct PackConfigView {
    pub compress: bool,
    pub dirs: Seq<Seq<char>>,
    pub files: Seq<Seq<char>>,
    pub exclude_files: Seq<Seq<char>>,
    pub exclude_dirs: Seq<Seq<char>>,
}

impl View for PackConfig {
    type V = PackConfigView;

    open spec fn view(&self) -> PackConfigView {
        PackConfigView {
            compress: self.compress,
            dirs: texts(self.dirs@),
            files: texts(self.files@),
            exclude_files: texts(self.exclude_files@),
            exclude_dirs: texts(self.exclude_dirs@),
        }
    }
}

/// What to put into which pack, by the name of the pack.
#[derive(Debug, PartialEq)]
pub struct Cfg {
    /// The packs, in the order in which they were given.
    pub pack: IndexMap<String, PackConfig>,
}

/// A map that keeps its entries in the order in which they came.
#[verifier::external_type_specification]
#[verifier::external_body]
#[verifier::reject_recursive_types(K)]
#[verifier::reject_recursive_types(V)]
#[verifier::reject_recursive_types(S)]
pub struct ExIndexMap<K, V, S>(IndexMap<K, V, S>);

/// The entries of a map of packs, in order.
pub uninterp spec fn pack_entries(packs: IndexMap<String, PackConfig>) -> Seq<
    (Seq<char>, PackConfigView),
>;

/// Takes a map apart with `indexmap::IndexMap::into_iter`, which hands out every
/// entry once, in the map's order.
#[verifier::external_body]
fn into_entries(packs: IndexMap<String, PackConfig>) -> (r: Vec<(String, PackConfig)>)
    ensures
        r@.map_values(|e: (String, PackConfig)| (e.0@, e.1@)) == pack_entries(packs),
{
    packs.into_iter().collect()
}

/// A directory and which of its files are meant.
#[derive(Debug)]
pub struct DirSpec {
    /// The directory.
    pub directory: String,
    /// Whether the directories in it are meant too.
    pub recurse_subdirectories: bool,
    /// Which file names are meant; all, where this is empty.
    pub filter_wildcard: String,
}

/// The contents of a [`DirSpec`].
pub struct DirView {
    pub directory: Seq<char>,
    pub recurse_subdirectories: bool,
    pub filter_wildcard: Seq<char>,
}

impl View for DirSpec {
    type V = DirView;

    open spec fn view(&self) -> DirView {
        DirView {
            directory: self.directory@,
            recurse_subdirectories: self.recurse_subdirectories,
            filter_wildcard: self.filter_wildcard@,
        }
    }
}

/// One step in describing packs.
#[derive(Debug)]
pub enum Command {
    /// Where the files are.
    CurrentDirectory(String),
    /// Where the pack index goes.
    PackIndex(String),
    /// Where the manifest is.
    ManifestFile(String),
    /// Begins a pack.
    Pack {
        /// File name of the pack.
        filename: String,
        /// Whether to compress its files.
        force_compression: bool,
    },
    /// Takes a directory into the pack.
    AddDir(DirSpec),
    /// Leaves a directory out of the pack.
    RemDir(DirSpec),
    /// Takes a file into the pack.
    AddFile {
        /// The file.
        filename: String,
    },
    /// Leaves a file out of the pack.
    RemFile {
        /// The file.
        filename: String,
    },
    /// Ends a pack.
    EndPack,
}

/// The contents of a [`Command`].
pub enum CommandView {
    CurrentDirectory(Seq<char>),
    PackIndex(Seq<char>),
    ManifestFile(Seq<char>),
    Pack { filename: Seq<char>, force_compression: bool },
    AddDir(DirView),
    RemDir(DirView),
    AddFile { filename: Seq<char> },
    RemFile { filename: Seq<char> },
    EndPack,
}

impl View for Command {
    type V = CommandView;

    open spec fn view(&self) -> CommandView {
        match *self {
            Command::CurrentDirectory(v) => CommandView::CurrentDirectory(v@),
            Command::PackIndex(v) => CommandView::PackIndex(v@),
            Command::ManifestFile(v) => CommandView::ManifestFile(v@),
            Command::Pack { filename, force_compression } => CommandView::Pack {
                filename: filename@,
                force_compression,
            },
            Command::AddDir(d) => CommandView::AddDir(d@),
            Command::RemDir(d) => CommandView::RemDir(d@),
            Command::AddFile { filename } => CommandView::AddFile { filename: filename@ },
            Command::RemFile { filename } => CommandView::RemFile { filename: filename@ },
            Command::EndPack => CommandView::EndPack,
        }
    }
}

/// What a pack takes in or leaves out at one place.
pub enum ArgKind {
    File,
    Dir { recurse: bool, filter: Seq<char> },
}

/// One instruction for the files of a pack.
pub struct ArgView {
    pub adds: bool,
    pub name: Seq<char>,
    pub kind: ArgKind,
}

/// A pack and the instructions for its files, in order.
#[verifier::ext_equal]
pub struct PackView {
    pub name: Seq<char>,
    pub compressed: bool,
    pub args: Seq<ArgView>,
}

/// What the generator of pack indices works from. Paths are given by the bytes
/// that they are encoded in.
#[verifier::ext_equal]
pub struct ConfigView {
    pub directory: Seq<u8>,
    pub output: Seq<u8>,
    pub manifest: Seq<u8>,
    pub prefix: Seq<char>,
    pub packs: Seq<PackView>,
}

/// The instructions for a generator of pack indices.
#[verifier::external_type_specification]
#[verifier::external_body]
pub struct ExConfig(Config);

/// The contents of a generator's instructions. The bytes of a path are those of
/// `std::ffi::OsStr::as_encoded_bytes`.
pub uninterp spec fn config_view(config: Config) -> ConfigView;

/// The command that `assembly_pack::txt::gen::parse_line` reads from a line of a
/// generator file, if it holds one.
pub uninterp spec fn parsed_line(line: Seq<char>) -> Option<CommandView>;

/// Whether a command is about the pack that was begun last.
pub open spec fn needs_pack(cmd: CommandView) -> bool {
    cmd is AddDir || cmd is RemDir || cmd is AddFile || cmd is RemFile
}

/// The instruction for a directory.
pub open spec fn dir_arg(adds: bool, dir: DirView) -> ArgView {
    ArgView {
        adds,
        name: dir.directory,
        kind: ArgKind::Dir { recurse: dir.recurse_subdirectories, filter: dir.filter_wildcard },
    }
}

/// The instruction for a file.
pub open spec fn file_arg(filename: Seq<char>) -> ArgView {
    ArgView { adds: true, name: filename, kind: ArgKind::File }
}

/// The packs with one more instruction for the last of them.
pub open spec fn with_arg(packs: Seq<PackView>, arg: ArgView) -> Seq<PackView> {
    let last = packs.last();
    packs.update(packs.len() - 1, PackView { args: last.args.push(arg), ..last })
}

/// What a command makes of the instructions. A file to be left out is entered
/// just like a file to be taken in.
pub open spec fn pushed(s: ConfigView, cmd: CommandView) -> ConfigView {
    match cmd {
        CommandView::CurrentDirectory(v) => ConfigView { directory: encode_utf8(v), ..s },
        CommandView::PackIndex(v) => ConfigView { output: encode_utf8(v), ..s },
        CommandView::ManifestFile(v) => ConfigView { manifest: encode_utf8(v), ..s },
        CommandView::Pack { filename, force_compression } => ConfigView {
            packs: s.packs.push(
                PackView {
                    name: filename,
                    compressed: force_compression,
                    args: Seq::<ArgView>::empty(),
                },
            ),
            ..s
        },
        CommandView::AddDir(d) => ConfigView { packs: with_arg(s.packs, dir_arg(true, d)), ..s },
        CommandView::RemDir(d) => ConfigView { packs: with_arg(s.packs, dir_arg(false, d)), ..s },
        CommandView::AddFile { filename } => ConfigView {
            packs: with_arg(s.packs, file_arg(filename)),
            ..s
        },
        CommandView::RemFile { filename } => ConfigView {
            packs: with_arg(s.packs, file_arg(filename)),
            ..s
        },
        CommandView::EndPack => s,
    }
}

/// Calls `assembly_pack::txt::gen::push_command`. A path command replaces that
/// path by `PathBuf::from` of its text, which is encoded as UTF-8; a pack goes
/// behind the others; what is about the last pack goes behind its other
/// instructions, and there the function panics if there is no pack; the end of a
/// pack changes nothing. The function gives a file to be left out the effect
/// `Include`, as it does for a file to be taken in.
#[verifier::external_body]
fn push_command(config: &mut Config, cmd: Command)
    requires
        needs_pack(cmd@) ==> config_view(*old(config)).packs.len() > 0,
    ensures
        config_view(*final(config)) == pushed(config_view(*old(config)), cmd@),
{
    let dir = |d: DirSpec| TxtDirSpec { directory: d.directory, recurse_subdirectories: d.recurse_subdirectories, filter_wildcard: d.filter_wildcard };
    let cmd = match cmd {
        Command::CurrentDirectory(v) => TxtCommand::CurrentDirectory(v),
        Command::PackIndex(v) => TxtCommand::PackIndex(v),
        Command::ManifestFile(v) => TxtCommand::ManifestFile(v),
        Command::Pack { filename, force_compression } => TxtCommand::Pack { filename, force_compression },
        Command::AddDir(d) => TxtCommand::AddDir(dir(d)),
        Command::RemDir(d) => TxtCommand::RemDir(dir(d)),
        Command::AddFile { filename } => TxtCommand::AddFile { filename },
        Command::RemFile { filename } => TxtCommand::RemFile { filename },
        Command::EndPack => TxtCommand::EndPack,
    };
    assembly_pack::txt::gen::push_command(config, cmd)
}

/// Calls `assembly_pack::txt::gen::parse_line`, whose result is a function of the
/// line alone.
#[verifier::external_body]
fn parse_line(line: &str) -> (r: Option<Command>)
    ensures
        r is Some == parsed_line(line@) is Some,
        r matches Some(cmd) ==> parsed_line(line@) == Some(cmd@),
{
    let dir = |d: TxtDirSpec| DirSpec { directory: d.directory, recurse_subdirectories: d.recurse_subdirectories, filter_wildcard: d.filter_wildcard };
    Some(match assembly_pack::txt::gen::parse_line(line)? {
        TxtCommand::CurrentDirectory(v) => Command::CurrentDirectory(v),
        TxtCommand::PackIndex(v) => Command::PackIndex(v),
        TxtCommand::ManifestFile(v) => Command::ManifestFile(v),
        TxtCommand::Pack { filename, force_compression } => Command::Pack { filename, force_compression },
        TxtCommand::AddDir(d) => Command::AddDir(dir(d)),
        TxtCommand::RemDir(d) => Command::RemDir(dir(d)),
        TxtCommand::AddFile { filename } => Command::AddFile { filename },
        TxtCommand::RemFile { filename } => Command::RemFile { filename },
        TxtCommand::EndPack => Command::EndPack,
    })
}

/// Reads off how many packs an `assembly_pack::pki::gen::Config` has.
#[verifier::external_body]
fn pack_count(config: &Config) -> (r: usize)
    ensures
        r == config_view(*config).packs.len(),
{
    config.pack_files.len()
}

/// A command about a pack where no pack was begun.
#[derive(Debug, Clone, Copy)]
pub struct NoPack;

/// What a command comes to, if there is one: it is carried out, unless it is
/// about a pack and there is none, which changes nothing.
pub open spec fn ran(
    before: ConfigView,
    cmd: Option<CommandView>,
    after: ConfigView,
    r: Result<(), NoPack>,
) -> bool {
    match cmd {
        Some(cmd) => if needs_pack(cmd) && before.packs.len() == 0 {
            r is Err && after == before
        } else {
            r is Ok && after == pushed(before, cmd)
        },
        None => r is Ok && after == before,
    }
}

/// Carries out a command.
pub fn run_command(config: &mut Config, cmd: Command) -> (r: Result<(), NoPack>)
    ensures
        ran(config_view(*old(config)), Some(cmd@), config_view(*final(config)), r),
{
    let about_pack = match &cmd {
        Command::AddDir(_) | Command::RemDir(_) => true,
        Command::AddFile { .. } | Command::RemFile { .. } => true,
        _ => false,
    };
    if about_pack && pack_count(config) == 0 {
        return Err(NoPack);
    }
    push_command(config, cmd);
    Ok(())
}

/// Carries out a line of a generator file. A line without a command changes
/// nothing.
pub fn run_line(config: &mut Config, line: &str) -> (r: Result<(), NoPack>)
    ensures
        ran(config_view(*old(config)), parsed_line(line@), config_view(*final(config)), r),
{
    match parse_line(line) {
        Some(cmd) => run_command(config, cmd),
        None => Ok(()),
    }
}

/// The directory that a file name with a wildcard stands for: what precedes the
/// last backslash, for the files that match what follows it. Other file names
/// stand for a file.
pub open spec fn hidden(filename: Seq<char>) -> Option<DirView> {
    match split_last(filename, '\\') {
        Some((directory, name)) => if name.contains('*') {
            Some(DirView { directory, recurse_subdirectories: false, filter_wildcard: name })
        } else {
            None
        },
        None => None,
    }
}

/// Tells which directory a file name with a wildcard stands for.
pub fn hidden_glob(filename: &str) -> (r: Option<DirSpec>)
    ensures
        r is Some == hidden(filename@) is Some,
        r matches Some(d) ==> hidden(filename@) == Some(d@),
{
    match rsplit_once(filename, '\\') {
        Some((directory, name)) => {
            if has_char(name.as_str(), '*') {
                Some(DirSpec { directory, recurse_subdirectories: false, filter_wildcard: name })
            } else {
                None
            }
        },
        None => None,
    }
}

/// Whether a character stands in a text.
fn has_char(s: &str, c: char) -> (r: bool)
    ensures
        r == s@.contains(c),
{
    let x = chars_of(s);
    let mut i: usize = 0;
    while i < x.len()
        invariant
            i <= x.len(),
            x@ == s@,
            forall|j: int| 0 <= j < i ==> x@[j] != c,
        decreases x.len() - i,
    {
        if x[i] == c {
            assert(s@[i as int] == c);
            return true;
        }
        i += 1;
    }
    false
}

/// What a directory specification `directory[=recursive[=filter]]` says. The
/// directories inside are meant too, unless `recursive` is `0`. Directory and
/// filter do not depend on case.
pub open spec fn dir_spec(spec_text: Seq<char>) -> DirView {
    let (directory, rest) = split_first(spec_text, '=');
    match rest {
        Some(rest) => {
            let (recursive, filter) = split_first(rest, '=');
            DirView {
                directory: lower(directory),
                recurse_subdirectories: recursive != "0"@,
                filter_wildcard: match filter {
                    Some(f) => lower(f),
                    None => Seq::<char>::empty(),
                },
            }
        },
        None => DirView {
            directory: lower(directory),
            recurse_subdirectories: true,
            filter_wildcard: Seq::<char>::empty(),
        },
    }
}

/// Reads a directory specification `directory[=recursive[=filter]]`.
pub fn parse_dir_spec(spec_text: &str) -> (r: DirSpec)
    ensures
        r@ == dir_spec(spec_text@),
{
    let (directory, rest) = split_once(spec_text, '=');
    let directory = to_lower(directory.as_str());
    match rest {
        Some(rest) => {
            let (recursive, filter) = split_once(rest.as_str(), '=');
            let recurse_subdirectories = !same_text(recursive.as_str(), "0");
            let filter_wildcard = match filter {
                Some(f) => to_lower(f.as_str()),
                None => String::new(),
            };
            DirSpec { directory, recurse_subdirectories, filter_wildcard }
        },
        None => DirSpec {
            directory,
            recurse_subdirectories: true,
            filter_wildcard: String::new(),
        },
    }
}

/// The instructions for directories, in order.
pub open spec fn dir_args(adds: bool, dirs: Seq<Seq<char>>) -> Seq<ArgView> {
    dirs.map_values(|d: Seq<char>| dir_arg(adds, dir_spec(d)))
}

/// The instruction for a file name. Case does not matter. A name with a wildcard
/// takes files in or leaves them out; any other is entered as a file.
pub open spec fn name_arg(adds: bool, filename: Seq<char>) -> ArgView {
    match hidden(lower(filename)) {
        Some(dir) => dir_arg(adds, dir),
        None => file_arg(lower(filename)),
    }
}

/// The instructions for file names, in order.
pub open spec fn name_args(adds: bool, files: Seq<Seq<char>>) -> Seq<ArgView> {
    files.map_values(|f: Seq<char>| name_arg(adds, f))
}

/// The file name of a pack.
pub open spec fn pack_file_name(name: Seq<char>) -> Seq<char> {
    lower("pack\\"@ + name + ".pk"@)
}

/// The pack that an entry of a configuration describes: first directories to take
/// in, then directories to leave out, then files to take in, then files to leave
/// out.
pub open spec fn pack_of(name: Seq<char>, config: PackConfigView) -> PackView {
    PackView {
        name: pack_file_name(name),
        compressed: config.compress,
        args: dir_args(true, config.dirs) + dir_args(false, config.exclude_dirs) + name_args(
            true,
            config.files,
        ) + name_args(false, config.exclude_files),
    }
}

/// The packs that the entries of a configuration describe.
pub open spec fn packs_of(entries: Seq<(Seq<char>, PackConfigView)>) -> Seq<PackView> {
    entries.map_values(|e: (Seq<char>, PackConfigView)| pack_of(e.0, e.1))
}

/// What a list of commands makes of the instructions, one after the other.
pub open spec fn pushed_all(s: ConfigView, cmds: Seq<CommandView>) -> ConfigView
    decreases cmds.len(),
{
    if cmds.len() == 0 {
        s
    } else {
        pushed(pushed_all(s, cmds.drop_last()), cmds.last())
    }
}

/// The command for a directory.
pub open spec fn dir_command(adds: bool, dir: DirView) -> CommandView {
    if adds {
        CommandView::AddDir(dir)
    } else {
        CommandView::RemDir(dir)
    }
}

/// The command for a file name. Case does not matter. A name with a wildcard is
/// about a directory.
pub open spec fn name_command(adds: bool, filename: Seq<char>) -> CommandView {
    match hidden(lower(filename)) {
        Some(dir) => dir_command(adds, dir),
        None => if adds {
            CommandView::AddFile { filename: lower(filename) }
        } else {
            CommandView::RemFile { filename: lower(filename) }
        },
    }
}

/// The commands for directories, in order.
pub open spec fn dir_commands(adds: bool, dirs: Seq<Seq<char>>) -> Seq<CommandView> {
    dirs.map_values(|d: Seq<char>| dir_command(adds, dir_spec(d)))
}

/// The commands for file names, in order.
pub open spec fn name_commands(adds: bool, files: Seq<Seq<char>>) -> Seq<CommandView> {
    files.map_values(|f: Seq<char>| name_command(adds, f))
}

/// The commands that describe a pack: its beginning, directories to take in,
/// directories to leave out, files to take in, files to leave out, its end.
pub open spec fn commands_of(name: Seq<char>, config: PackConfigView) -> Seq<CommandView> {
    seq![
        CommandView::Pack {
            filename: pack_file_name(name),
            force_compression: config.compress,
        },
    ] + dir_commands(true, config.dirs) + dir_commands(false, config.exclude_dirs)
        + name_commands(true, config.files) + name_commands(false, config.exclude_files) + seq![
        CommandView::EndPack,
    ]
}

/// The contents of a list of commands.
pub open spec fn command_views(cmds: Seq<Command>) -> Seq<CommandView> {
    cmds.map_values(|c: Command| c@)
}

/// Lists the commands for directories behind others.
fn list_dirs(cmds: &mut Vec<Command>, adds: bool, dirs: &Vec<String>)
    ensures
        command_views(final(cmds)@) == command_views(old(cmds)@) + dir_commands(
            adds,
            texts(dirs@),
        ),
{
    let ghost start = command_views(cmds@);
    let ghost all = dir_commands(adds, texts(dirs@));
    let mut i: usize = 0;
    assert(start + all.take(0) =~= start);
    while i < dirs.len()
        invariant
            i <= dirs.len(),
            all == dir_commands(adds, texts(dirs@)),
            command_views(cmds@) == start + all.take(i as int),
        decreases dirs.len() - i,
    {
        let dir = parse_dir_spec(dirs[i].as_str());
        let cmd = if adds {
            Command::AddDir(dir)
        } else {
            Command::RemDir(dir)
        };
        let ghost before = cmds@;
        cmds.push(cmd);
        assert(command_views(cmds@) =~= command_views(before).push(all[i as int]));
        assert((start + all.take(i as int)).push(all[i as int]) =~= start + all.take(i + 1));
        i += 1;
    }
    assert(all.take(dirs.len() as int) =~= all);
}

/// Lists the commands for file names behind others.
fn list_files(cmds: &mut Vec<Command>, adds: bool, files: &Vec<String>)
    ensures
        command_views(final(cmds)@) == command_views(old(cmds)@) + name_commands(
            adds,
            texts(files@),
        ),
{
    let ghost start = command_views(cmds@);
    let ghost all = name_commands(adds, texts(files@));
    let mut i: usize = 0;
    assert(start + all.take(0) =~= start);
    while i < files.len()
        invariant
            i <= files.len(),
            all == name_commands(adds, texts(files@)),
            command_views(cmds@) == start + all.take(i as int),
        decreases files.len() - i,
    {
        let filename = to_lower(files[i].as_str());
        let cmd = match hidden_glob(filename.as_str()) {
            Some(dir) => if adds {
                Command::AddDir(dir)
            } else {
                Command::RemDir(dir)
            },
            None => if adds {
                Command::AddFile { filename }
            } else {
                Command::RemFile { filename }
            },
        };
        let ghost before = cmds@;
        cmds.push(cmd);
        assert(command_views(cmds@) =~= command_views(before).push(all[i as int]));
        assert((start + all.take(i as int)).push(all[i as int]) =~= start + all.take(i + 1));
        i += 1;
    }
    assert(all.take(files.len() as int) =~= all);
}

/// Lists the commands that describe a pack.
pub fn pack_commands(name: &str, pack: &PackConfig) -> (r: Vec<Command>)
    ensures
        command_views(r@) == commands_of(name@, pack@),
{
    let mut path = "pack\\".to_owned();
    path.append(name);
    path.append(".pk");
    let filename = to_lower(path.as_str());
    let mut r: Vec<Command> = Vec::new();
    r.push(Command::Pack { filename, force_compression: pack.compress });
    assert(command_views(r@) =~= seq![
        CommandView::Pack {
            filename: pack_file_name(name@),
            force_compression: pack.compress,
        },
    ]);
    list_dirs(&mut r, true, &pack.dirs);
    list_dirs(&mut r, false, &pack.exclude_dirs);
    list_files(&mut r, true, &pack.files);
    list_files(&mut r, false, &pack.exclude_files);
    let ghost before = command_views(r@);
    r.push(Command::EndPack);
    assert(command_views(r@) =~= before + seq![CommandView::EndPack]);
    r
}

/// The state with further instructions for its last pack.
spec fn extended(s: ConfigView, args: Seq<ArgView>) -> ConfigView {
    let last = s.packs.last();
    ConfigView {
        packs: s.packs.update(s.packs.len() - 1, PackView { args: last.args + args, ..last }),
        ..s
    }
}

/// The instruction that a command about a pack comes to.
spec fn arg_of(cmd: CommandView) -> ArgView {
    match cmd {
        CommandView::AddDir(d) => dir_arg(true, d),
        CommandView::RemDir(d) => dir_arg(false, d),
        CommandView::AddFile { filename } => file_arg(filename),
        CommandView::RemFile { filename } => file_arg(filename),
        _ => arbitrary(),
    }
}

/// Commands one after the other do what their parts do one after the other.
proof fn lemma_pushed_all_concat(s: ConfigView, a: Seq<CommandView>, b: Seq<CommandView>)
    ensures
        pushed_all(s, a + b) == pushed_all(pushed_all(s, a), b),
    decreases b.len(),
{
    if b.len() == 0 {
        assert(a + b =~= a);
    } else {
        lemma_pushed_all_concat(s, a, b.drop_last());
        assert((a + b).drop_last() =~= a + b.drop_last());
    }
}

/// Commands about a pack enter their instructions behind the others of the last
/// pack.
proof fn lemma_pushed_args(s: ConfigView, cmds: Seq<CommandView>, args: Seq<ArgView>)
    requires
        s.packs.len() > 0,
        cmds.len() == args.len(),
        forall|i: int|
            0 <= i < cmds.len() ==> needs_pack(#[trigger] cmds[i]) && arg_of(cmds[i]) == args[i],
    ensures
        pushed_all(s, cmds) == extended(s, args),
    decreases cmds.len(),
{
    let last = s.packs.last();
    if cmds.len() == 0 {
        assert(last.args + args =~= last.args);
        assert(extended(s, args).packs =~= s.packs);
    } else {
        let front = args.drop_last();
        assert forall|i: int| 0 <= i < cmds.drop_last().len() implies needs_pack(
            #[trigger] cmds.drop_last()[i],
        ) && arg_of(cmds.drop_last()[i]) == front[i] by {
            assert(cmds.drop_last()[i] == cmds[i]);
        }
        lemma_pushed_args(s, cmds.drop_last(), front);
        assert(needs_pack(cmds[cmds.len() - 1]));
        assert((last.args + front).push(args.last()) =~= last.args + args);
        assert(pushed_all(s, cmds).packs =~= extended(s, args).packs);
    }
}

/// The commands that describe a pack enter that pack behind the others.
pub proof fn law_commands_enter_pack(s: ConfigView, name: Seq<char>, config: PackConfigView)
    ensures
        pushed_all(s, commands_of(name, config)) == (ConfigView {
            packs: s.packs.push(pack_of(name, config)),
            ..s
        }),
{
    let cmds = commands_of(name, config);
    let begin = cmds.take(1);
    let middle = cmds.subrange(1, cmds.len() - 1);
    let v = pack_of(name, config);
    assert(begin.drop_last() =~= Seq::<CommandView>::empty());
    let first = pushed_all(s, begin);
    assert(first == pushed(s, cmds[0])) by {
        assert(pushed_all(s, begin.drop_last()) == s);
    }
    assert forall|i: int| 0 <= i < middle.len() implies needs_pack(#[trigger] middle[i]) && arg_of(
        middle[i],
    ) == v.args[i] by {
        lemma_command_args(config, i);
        assert(middle[i] == cmds[i + 1]);
    }
    lemma_pushed_args(first, middle, v.args);
    lemma_pushed_all_concat(s, begin, middle);
    assert(begin + middle =~= cmds.drop_last());
    assert(cmds.last() == CommandView::EndPack);
    assert(pushed_all(s, cmds).packs =~= s.packs.push(v)) by {
        assert(Seq::<ArgView>::empty() + v.args =~= v.args);
    }
}

/// The command at a position, of those for directories and file names, comes to
/// the instruction at that position.
proof fn lemma_command_args(config: PackConfigView, i: int)
    requires
        0 <= i < config.dirs.len() + config.exclude_dirs.len() + config.files.len()
            + config.exclude_files.len(),
    ensures
        ({
            let cmds = dir_commands(true, config.dirs) + dir_commands(false, config.exclude_dirs)
                + name_commands(true, config.files) + name_commands(false, config.exclude_files);
            let args = dir_args(true, config.dirs) + dir_args(false, config.exclude_dirs)
                + name_args(true, config.files) + name_args(false, config.exclude_files);
            needs_pack(cmds[i]) && arg_of(cmds[i]) == args[i]
        }),
{
}

/// Carrying out the first commands that describe a pack leaves a pack to be about.
proof fn lemma_pack_begun(s: ConfigView, name: Seq<char>, config: PackConfigView, n: int)
    requires
        0 < n <= commands_of(name, config).len(),
    ensures
        pushed_all(s, commands_of(name, config).take(n)).packs.len() > 0,
    decreases n,
{
    let cmds = commands_of(name, config);
    assert(cmds.take(n).drop_last() =~= cmds.take(n - 1));
    assert(cmds.take(n).last() == cmds[n - 1]);
    if n > 1 {
        lemma_pack_begun(s, name, config, n - 1);
    }
}

/// Enters a pack.
fn push_pack(config: &mut Config, name: &str, pack: &PackConfig)
    ensures
        config_view(*final(config)) == (ConfigView {
            packs: config_view(*old(config)).packs.push(pack_of(name@, pack@)),
            ..config_view(*old(config))
        }),
{
    let ghost start = config_view(*config);
    let ghost all = commands_of(name@, pack@);
    let cmds = pack_commands(name, pack);
    assert(all.take(0) =~= Seq::<CommandView>::empty());
    for cmd in it: cmds
        invariant
            command_views(it.seq()) == all,
            all == commands_of(name@, pack@),
            config_view(*config) == pushed_all(start, all.take(it.index())),
    {
        let ghost n = it.index();
        proof {
            assert(cmd@ == all[n]);
            assert(all.take(n + 1).drop_last() =~= all.take(n));
            if n > 0 {
                lemma_pack_begun(start, name@, pack@, n);
            }
        }
        push_command(config, cmd);
    }
    proof {
        assert(all.take(all.len() as int) =~= all);
        law_commands_enter_pack(start, name@, pack@);
    }
}

/// Enters the packs of a configuration, in its order, behind those that are there.
pub fn process_cfg(config: &mut Config, cfg: Cfg)
    ensures
        config_view(*final(config)) == (ConfigView {
            packs: config_view(*old(config)).packs + packs_of(pack_entries(cfg.pack)),
            ..config_view(*old(config))
        }),
{
    let ghost start = config_view(*config);
    let ghost all = packs_of(pack_entries(cfg.pack));
    let entries = into_entries(cfg.pack);
    let mut i: usize = 0;
    assert(start.packs + all.take(0) =~= start.packs);
    while i < entries.len()
        invariant
            i <= entries.len(),
            all == packs_of(entries@.map_values(|e: (String, PackConfig)| (e.0@, e.1@))),
            config_view(*config) == (ConfigView {
                packs: start.packs + all.take(i as int),
                ..start
            }),
        decreases entries.len() - i,
    {
        let e = &entries[i];
        push_pack(config, e.0.as_str(), &e.1);
        proof {
            assert(all[i as int] == pack_of(e.0@, e.1@));
            assert((start.packs + all.take(i as int)).push(all[i as int]) =~= start.packs
                + all.take(i + 1));
        }
        i += 1;
    }
    assert(all.take(entries.len() as int) =~= all);
}

/// Where a file is: in which pack, and how.
#[derive(Debug, Clone, Copy)]
pub struct FileRef {
    /// What the file is; the lowest bit tells whether it is compressed.
    pub category: u32,
    /// Position of the pack in the list of archives.
    pub pack_file: u32,
}

/// An index of packs: the packs, and for the CRC of each file where it is.
#[derive(Debug)]
pub struct PackIndex {
    /// Paths of the packs.
    pub archives: Vec<String>,
    /// The files, by the CRC of their paths.
    pub files: BTreeMap<u32, FileRef>,
}

/// Whether some file is in the archive at a position.
pub open spec fn used(files: Map<u32, FileRef>, i: int) -> bool {
    exists|crc: u32| #[trigger] files.contains_key(crc) && files[crc].pack_file == i
}

/// How many of the archives before a position have a file in them.
pub open spec fn rank(files: Map<u32, FileRef>, i: int) -> nat
    decreases i,
{
    if i <= 0 {
        0
    } else if used(files, i - 1) {
        rank(files, i - 1) + 1
    } else {
        rank(files, i - 1)
    }
}

/// The archives that have a file in them, in order.
pub open spec fn kept(archives: Seq<Seq<char>>, files: Map<u32, FileRef>) -> Seq<Seq<char>>
    decreases archives.len(),
{
    if archives.len() == 0 {
        archives
    } else {
        let before = kept(archives.drop_last(), files);
        if used(files, archives.len() - 1) {
            before.push(archives.last())
        } else {
            before
        }
    }
}

/// The files with their archives counted among those that have a file in them.
pub open spec fn renumbered(files: Map<u32, FileRef>) -> Map<u32, FileRef> {
    files.map_values(
        |f: FileRef|
            FileRef { category: f.category, pack_file: rank(files, f.pack_file as int) as u32 },
    )
}

/// Whether every file is in an archive that there is.
pub open spec fn index_ok(archives: Seq<Seq<char>>, files: Map<u32, FileRef>) -> bool {
    forall|crc: u32| #[trigger]
        files.contains_key(crc) ==> files[crc].pack_file < archives.len()
}

/// A rank is at most the position, and grows with it.
proof fn lemma_rank(files: Map<u32, FileRef>, i: int, j: int)
    requires
        0 <= i <= j,
    ensures
        rank(files, i) <= i,
        rank(files, i) <= rank(files, j),
        i < j && used(files, i) ==> rank(files, i) < rank(files, j),
    decreases j,
{
    if i < j {
        lemma_rank(files, i, j - 1);
    } else if i > 0 {
        lemma_rank(files, i - 1, j - 1);
    }
}

/// An archive with a file in it is kept, at the place of its rank.
proof fn lemma_kept_at(archives: Seq<Seq<char>>, files: Map<u32, FileRef>, i: int)
    requires
        0 <= i < archives.len(),
    ensures
        kept(archives, files).len() == rank(files, archives.len() as int),
        used(files, i) ==> rank(files, i) < kept(archives, files).len() && kept(
            archives,
            files,
        )[rank(files, i) as int] == archives[i],
    decreases archives.len(),
{
    let shorter = archives.drop_last();
    if shorter.len() > 0 {
        lemma_kept_at(shorter, files, 0);
        if i < shorter.len() {
            lemma_kept_at(shorter, files, i);
        }
    } else {
        assert(kept(shorter, files).len() == 0);
        assert(rank(files, 0) == 0);
    }
}

/// Lists the entries of a map of files.
fn entries_of(files: &BTreeMap<u32, FileRef>) -> (r: Vec<(u32, FileRef)>)
    ensures
        forall|k: int|
            0 <= k < r.len() ==> files@.contains_key((#[trigger] r@[k]).0) && files@[r@[k].0]
                == r@[k].1,
        forall|crc: u32| #[trigger] files@.contains_key(crc) ==> r@.contains((crc, files@[crc])),
{
    broadcast use vstd::std_specs::btree::group_btree_axioms;

    let mut r: Vec<(u32, FileRef)> = Vec::new();
    for entry in it: files.iter()
        invariant
            it.seq() == vstd::std_specs::iter::IteratorSpec::remaining(
                &vstd::std_specs::btree::spec_btree_map_iter(files),
            ),
            r.len() == it.index(),
            forall|k: int|
                0 <= k < r.len() ==> (#[trigger] r@[k]) == (*it.seq()[k].0, *it.seq()[k].1),
    {
        r.push((*entry.0, *entry.1));
    }
    proof {
        let pairs = vstd::std_specs::iter::IteratorSpec::remaining(
            &vstd::std_specs::btree::spec_btree_map_iter(files),
        );
        assert forall|k: int| 0 <= k < r.len() implies files@.contains_key((#[trigger] r@[k]).0)
            && files@[r@[k].0] == r@[k].1 by {
            assert(files@.contains_key(*pairs[k].0));
        }
        assert forall|crc: u32| #[trigger] files@.contains_key(crc) implies r@.contains(
            (crc, files@[crc]),
        ) by {
            assert(pairs.contains((&crc, &files@[crc])));
            let k = choose|k: int| 0 <= k < pairs.len() && pairs[k] == (&crc, &files@[crc]);
            assert(r@[k] == (crc, files@[crc]));
        }
    }
    r
}

/// Removes the archives that no file is in, and counts the others anew.
pub fn prune(index: PackIndex) -> (r: PackIndex)
    requires
        index_ok(texts(index.archives@), index.files@),
    ensures
        texts(r.archives@) == kept(texts(index.archives@), index.files@),
        r.files@ == renumbered(index.files@),
{
    broadcast use vstd::std_specs::btree::group_btree_axioms;

    let ghost files = index.files@;
    let ghost all = texts(index.archives@);
    let n: usize = index.archives.len();
    let mut owns: Vec<bool> = Vec::new();
    while owns.len() < n
        invariant
            owns.len() <= n,
            forall|j: int| 0 <= j < owns.len() ==> !owns@[j],
        decreases n - owns.len(),
    {
        owns.push(false);
    }
    let entries = entries_of(&index.files);
    let mut k: usize = 0;
    while k < entries.len()
        invariant
            k <= entries.len(),
            owns.len() == n,
            n == all.len(),
            index_ok(all, files),
            forall|e: int|
                0 <= e < entries.len() ==> files.contains_key((#[trigger] entries@[e]).0)
                    && files[entries@[e].0] == entries@[e].1,
            forall|j: int| 0 <= j < n && owns@[j] ==> used(files, j),
            forall|e: int| 0 <= e < k ==> owns@[(#[trigger] entries@[e]).1.pack_file as int],
        decreases entries.len() - k,
    {
        let (_, file) = entries[k];
        assert(files.contains_key(entries@[k as int].0));
        owns.set(file.pack_file as usize, true);
        k += 1;
    }
    assert forall|j: int| 0 <= j < n implies owns@[j] == used(files, j) by {
        if used(files, j) {
            let crc = choose|crc: u32| #[trigger]
                files.contains_key(crc) && files[crc].pack_file == j;
            assert(entries@.contains((crc, files[crc])));
        }
    }
    let mut ranks: Vec<u32> = Vec::new();
    let mut archives: Vec<String> = Vec::new();
    let mut i: usize = 0;
    assert(all.take(0) =~= Seq::<Seq<char>>::empty());
    while i < n
        invariant
            i <= n,
            n == index.archives.len(),
            owns.len() == n,
            all == texts(index.archives@),
            forall|j: int| 0 <= j < n ==> owns@[j] == used(files, j),
            texts(archives@) == kept(all.take(i as int), files),
            archives.len() == rank(files, i as int),
            ranks.len() == i,
            forall|j: int|
                0 <= j < i && used(files, j) && j <= u32::MAX ==> #[trigger] ranks@[j] == rank(
                    files,
                    j,
                ),
        decreases n - i,
    {
        proof {
            assert(all.take(i + 1).drop_last() =~= all.take(i as int));
            lemma_rank(files, i as int, i as int);
        }
        if owns[i] {
            let ghost so_far = texts(archives@);
            ranks.push(archives.len() as u32);
            archives.push(index.archives[i].clone());
            assert(texts(archives@) =~= so_far.push(all[i as int]));
        } else {
            ranks.push(0);
        }
        i += 1;
    }
    assert(all.take(n as int) =~= all);
    let mut renamed: BTreeMap<u32, FileRef> = BTreeMap::new();
    let ghost goal = renumbered(files);
    k = 0;
    while k < entries.len()
        invariant
            k <= entries.len(),
            ranks.len() == n,
            n == all.len(),
            goal == renumbered(files),
            index_ok(all, files),
            forall|e: int|
                0 <= e < entries.len() ==> files.contains_key((#[trigger] entries@[e]).0)
                    && files[entries@[e].0] == entries@[e].1,
            forall|j: int|
                0 <= j < n && used(files, j) && j <= u32::MAX ==> #[trigger] ranks@[j] == rank(
                    files,
                    j,
                ),
            forall|crc: u32| #[trigger]
                renamed@.contains_key(crc) ==> goal.contains_key(crc) && renamed@[crc] == goal[crc],
            forall|e: int| 0 <= e < k ==> renamed@.contains_key((#[trigger] entries@[e]).0),
        decreases entries.len() - k,
    {
        let (crc, file) = entries[k];
        assert(files.contains_key(entries@[k as int].0));
        assert(used(files, file.pack_file as int));
        let pack_file: u32 = ranks[file.pack_file as usize];
        renamed.insert(crc, FileRef { category: file.category, pack_file });
        k += 1;
    }
    assert forall|crc: u32| goal.contains_key(crc) implies renamed@.contains_key(crc) by {
        assert(files.contains_key(crc));
        assert(entries@.contains((crc, files[crc])));
    }
    assert(renamed@ =~= goal);
    PackIndex { archives, files: renamed }
}

/// Pruning loses no file and moves none: each keeps its category and is in an
/// archive of the same path as before, which there is.
pub proof fn law_prune_keeps_files(archives: Seq<Seq<char>>, files: Map<u32, FileRef>, crc: u32)
    requires
        index_ok(archives, files),
    ensures
        renumbered(files).contains_key(crc) == files.contains_key(crc),
        files.contains_key(crc) ==> {
            let before = files[crc];
            let after = renumbered(files)[crc];
            &&& after.category == before.category
            &&& after.pack_file < kept(archives, files).len()
            &&& kept(archives, files)[after.pack_file as int] == archives[before.pack_file as int]
        },
{
    if files.contains_key(crc) {
        let i = files[crc].pack_file as int;
        assert(used(files, i));
        lemma_kept_at(archives, files, i);
        lemma_rank(files, i, i);
    }
}

/// A rank below that of some position belongs to an archive before it that has a
/// file in it.
proof fn lemma_unrank(files: Map<u32, FileRef>, n: int, r: int) -> (i: int)
    requires
        0 <= n,
        0 <= r < rank(files, n),
    ensures
        0 <= i < n,
        used(files, i),
        rank(files, i) == r,
    decreases n,
{
    if r < rank(files, n - 1) {
        lemma_unrank(files, n - 1, r)
    } else {
        n - 1
    }
}

/// After pruning every archive has a file in it, so the index lists no archive
/// that is never written, and every file is in an archive that there is.
pub proof fn law_prune_leaves_no_empty_archive(
    archives: Seq<Seq<char>>,
    files: Map<u32, FileRef>,
    r: int,
)
    requires
        index_ok(archives, files),
        0 <= r < kept(archives, files).len(),
    ensures
        exists|crc: u32| #[trigger]
            renumbered(files).contains_key(crc) && renumbered(files)[crc].pack_file == r,
        used(renumbered(files), r),
        index_ok(kept(archives, files), renumbered(files)),
{
    lemma_kept_at(archives, files, 0);
    let i = lemma_unrank(files, archives.len() as int, r);
    let crc = choose|crc: u32| #[trigger] files.contains_key(crc) && files[crc].pack_file == i;
    lemma_rank(files, i, i);
    assert(renumbered(files).contains_key(crc));
    assert(renumbered(files)[crc].pack_file == r);
    assert forall|c: u32| #[trigger] renumbered(files).contains_key(c) implies renumbered(
        files,
    )[c].pack_file < kept(archives, files).len() by {
        law_prune_keeps_files(archives, files, c);
    }
}

/// Where every archive before a position has a file in it, ranks are positions.
proof fn lemma_full_rank(files: Map<u32, FileRef>, n: int)
    requires
        0 <= n,
        forall|i: int| 0 <= i < n ==> used(files, i),
    ensures
        rank(files, n) == n,
    decreases n,
{
    if n > 0 {
        lemma_full_rank(files, n - 1);
    }
}

/// Where every archive has a file in it, all are kept.
proof fn lemma_full_kept(archives: Seq<Seq<char>>, files: Map<u32, FileRef>)
    requires
        forall|i: int| 0 <= i < archives.len() ==> used(files, i),
    ensures
        kept(archives, files) == archives,
    decreases archives.len(),
{
    if archives.len() > 0 {
        lemma_full_kept(archives.drop_last(), files);
        assert(archives.drop_last().push(archives.last()) =~= archives);
    }
}

/// Pruning what was pruned changes nothing.
pub proof fn law_prune_idempotent(archives: Seq<Seq<char>>, files: Map<u32, FileRef>)
    requires
        index_ok(archives, files),
    ensures
        kept(kept(archives, files), renumbered(files)) == kept(archives, files),
        renumbered(renumbered(files)) == renumbered(files),
{
    let left = kept(archives, files);
    let after = renumbered(files);
    assert forall|i: int| 0 <= i < left.len() implies used(after, i) by {
        law_prune_leaves_no_empty_archive(archives, files, i);
    }
    lemma_full_kept(left, after);
    assert forall|crc: u32| #[trigger] after.contains_key(crc) implies renumbered(after)[crc]
        == after[crc] by {
        law_prune_keeps_files(archives, files, crc);
        lemma_full_rank(after, after[crc].pack_file as int);
    }
    assert(renumbered(after) =~= after);
}

/// Pruning keeps the archives in their order: of two archives with files in them,
/// the one that came first still does.
pub proof fn law_prune_keeps_order(
    archives: Seq<Seq<char>>,
    files: Map<u32, FileRef>,
    a: u32,
    b: u32,
)
    requires
        index_ok(archives, files),
        files.contains_key(a),
        files.contains_key(b),
    ensures
        files[a].pack_file < files[b].pack_file <==> renumbered(files)[a].pack_file < renumbered(
            files,
        )[b].pack_file,
        files[a].pack_file == files[b].pack_file <==> renumbered(files)[a].pack_file
            == renumbered(files)[b].pack_file,
{
    let i = files[a].pack_file as int;
    let j = files[b].pack_file as int;
    assert(used(files, i));
    assert(used(files, j));
    lemma_rank(files, i, i);
    lemma_rank(files, j, j);
    if i <= j {
        lemma_rank(files, i, j);
    } else {
        lemma_rank(files, j, i);
    }
}

/// Cutting ASCII text in small letters gives the pieces of the text in small
/// letters, where the separator is no letter.
proof fn lemma_split_first_lower(s: Seq<char>)
    requires
        vstd::utf8::is_ascii_chars(s),
    ensures
        vstd::utf8::is_ascii_chars(split_first(s, '=').0),
        split_first(lower(s), '=').0 == lower(split_first(s, '=').0),
        match split_first(s, '=').1 {
            Some(rest) => vstd::utf8::is_ascii_chars(rest) && split_first(lower(s), '=').1 == Some(
                lower(rest),
            ),
            None => split_first(lower(s), '=').1 is None,
        },
{
    let t = lower(s);
    if s.contains('=') {
        s.index_of_first_ensures('=');
        let i = s.index_of_first('=')->0;
        assert(t[i] == '=');
        t.index_of_first_ensures('=');
        let j = t.index_of_first('=')->0;
        assert(s[j] == '=');
        assert(i == j);
        assert(t.take(i) =~= lower(s.take(i)));
        assert(t.skip(i + 1) =~= lower(s.skip(i + 1)));
    } else {
        assert(!t.contains('=')) by {
            if t.contains('=') {
                let j = choose|j: int| 0 <= j < t.len() && t[j] == '=';
                assert(s[j] == '=');
            }
        }
    }
}

/// Neither the packs of a configuration nor what goes into them depends on the
/// case of the letters in it, where those are ASCII: the file names of packs, the
/// directories, the filters and the files are the same in small letters.
pub proof fn law_case_does_not_matter(name: Seq<char>, filename: Seq<char>, adds: bool)
    requires
        vstd::utf8::is_ascii_chars(name),
        vstd::utf8::is_ascii_chars(filename),
    ensures
        pack_file_name(lower(name)) == pack_file_name(name),
        name_arg(adds, lower(filename)) == name_arg(adds, filename),
        dir_spec(lower(filename)) == dir_spec(filename),
{
    reveal_strlit("pack\\");
    reveal_strlit(".pk");
    lemma_lower_ascii(name);
    lemma_lower_ascii(filename);
    let x = "pack\\"@ + name + ".pk"@;
    let y = "pack\\"@ + lower(name) + ".pk"@;
    assert(lower(x) =~= lower(y));
    reveal_strlit("0");
    lemma_split_first_lower(filename);
    lemma_lower_ascii(split_first(filename, '=').0);
    if let Some(rest) = split_first(filename, '=').1 {
        lemma_split_first_lower(rest);
        let recursive = split_first(rest, '=').0;
        assert((lower(recursive) == "0"@) == (recursive == "0"@)) by {
            if lower(recursive) == "0"@ {
                assert(lower(recursive).len() == 1);
                assert(lower(recursive)[0] == '0');
                assert(recursive =~= "0"@);
            }
            if recursive == "0"@ {
                assert(lower(recursive) =~= "0"@);
            }
        }
        if let Some(f) = split_first(rest, '=').1 {
            lemma_lower_ascii(f);
        }
    }
}

} // verus!
