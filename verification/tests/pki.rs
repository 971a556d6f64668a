use assembly_pack::pki::gen::{ArgEffect, ArgKind, Config, PackFileArg};
use indexmap::IndexMap;
use lu_cache::pki::{
    hidden_glob, pack_commands, parse_dir_spec, process_cfg, prune, run_command, run_line, Cfg, Command, FileRef,
    PackConfig, PackIndex,
};
use std::collections::BTreeMap;
use std::path::PathBuf;

fn list(items: &[&str]) -> Vec<String> {
    items.iter().map(|p| p.to_string()).collect()
}

fn dir(effect: ArgEffect, name: &str, recurse: bool, filter: &str) -> PackFileArg {
    let kind = ArgKind::Dir { recurse, filter: filter.to_string() };
    PackFileArg { effect, name: name.to_string(), kind }
}

fn file(effect: ArgEffect, name: &str) -> PackFileArg {
    PackFileArg { effect, name: name.to_string(), kind: ArgKind::File }
}

#[test]
fn dir_spec_examples() {
    let d = parse_dir_spec("mesh\\env");
    assert_eq!((d.directory.as_str(), d.recurse_subdirectories, d.filter_wildcard.as_str()), ("mesh\\env", true, ""));
    let d = parse_dir_spec("mesh\\env=0=re_*");
    assert_eq!((d.directory.as_str(), d.recurse_subdirectories, d.filter_wildcard.as_str()), ("mesh\\env", false, "re_*"));
    let d = parse_dir_spec("brickmodels\\pettaming=1");
    assert_eq!((d.directory.as_str(), d.recurse_subdirectories, d.filter_wildcard.as_str()), ("brickmodels\\pettaming", true, ""));
}

#[test]
fn dir_spec_edges() {
    let d = parse_dir_spec("Mesh=x=RE_*=Q");
    assert_eq!((d.directory.as_str(), d.recurse_subdirectories, d.filter_wildcard.as_str()), ("mesh", true, "re_*=q"));
    let d = parse_dir_spec("=00");
    assert_eq!((d.directory.as_str(), d.recurse_subdirectories), ("", true));
    let d = parse_dir_spec("a=");
    assert_eq!((d.directory.as_str(), d.recurse_subdirectories), ("a", true));
}

#[test]
fn wildcards_in_file_names_stand_for_directories() {
    let d = hidden_glob("res\\ui\\*.dds").unwrap();
    assert_eq!((d.directory.as_str(), d.recurse_subdirectories, d.filter_wildcard.as_str()), ("res\\ui", false, "*.dds"));
    assert!(hidden_glob("res\\ui\\a.dds").is_none());
    assert!(hidden_glob("*.dds").is_none());
    assert!(hidden_glob("res\\*\\a.dds").is_none());
}

#[test]
fn configuration_becomes_packs() {
    let mut pack = IndexMap::new();
    pack.insert(
        "Front".to_string(),
        PackConfig {
            compress: true,
            dirs: list(&["Mesh\\Env=0=Re_*", "ui"]),
            files: list(&["Names.XML", "fx\\*.psb"]),
            exclude_files: list(&["fx\\old_*", "Gone.TXT"]),
            exclude_dirs: list(&["ui\\dev"]),
        },
    );
    pack.insert(
        "a_second".to_string(),
        PackConfig {
            compress: false,
            dirs: vec![],
            files: vec![],
            exclude_files: vec![],
            exclude_dirs: vec![],
        },
    );
    let mut config = Config { prefix: "client\\".to_string(), ..Config::default() };
    process_cfg(&mut config, Cfg { pack });
    use_packs(&config);
}

fn use_packs(config: &Config) {
    assert_eq!(config.prefix, "client\\");
    assert_eq!(config.pack_files.len(), 2);
    let front = &config.pack_files[0];
    assert_eq!(front.name, "pack\\front.pk");
    assert!(front.compressed);
    assert_eq!(
        front.args,
        vec![
            dir(ArgEffect::Include, "mesh\\env", false, "re_*"),
            dir(ArgEffect::Include, "ui", true, ""),
            dir(ArgEffect::Exclude, "ui\\dev", true, ""),
            file(ArgEffect::Include, "names.xml"),
            dir(ArgEffect::Include, "fx", false, "*.psb"),
            dir(ArgEffect::Exclude, "fx", false, "old_*"),
            file(ArgEffect::Include, "gone.txt"),
        ]
    );
    assert_eq!(config.pack_files[1].name, "pack\\a_second.pk");
    assert!(!config.pack_files[1].compressed);
    assert!(config.pack_files[1].args.is_empty());
}

#[test]
fn packs_do_not_depend_on_case() {
    let make = |name: &str, entry: &str| {
        let mut pack = IndexMap::new();
        pack.insert(
            name.to_string(),
            PackConfig {
                compress: false,
                dirs: list(&[entry]),
                files: list(&[entry]),
                exclude_files: vec![],
                exclude_dirs: vec![],
            },
        );
        let mut config = Config::default();
        process_cfg(&mut config, Cfg { pack });
        config
    };
    assert_eq!(make("FRONT", "A\\B*=0=C"), make("front", "a\\b*=0=c"));
}

#[test]
fn generator_lines_are_carried_out() {
    let mut config = Config::default();
    for line in [
        "# comment",
        "",
        "current_directory=res",
        "pack_index=out.pki",
        "manifest_file=trunk.txt",
        "pack=pack\\a.pk=1",
        "add_dir=mesh=0=*.nif # more",
        "rem_dir=mesh\\old",
        "add_file=a.txt",
        "rem_file=b.txt",
        "nonsense=1",
        "end_pack",
    ] {
        assert!(run_line(&mut config, line).is_ok());
    }
    assert_eq!(config.directory, PathBuf::from("res"));
    assert_eq!(config.output, PathBuf::from("out.pki"));
    assert_eq!(config.manifest, PathBuf::from("trunk.txt"));
    assert_eq!(config.pack_files.len(), 1);
    assert_eq!(config.pack_files[0].name, "pack\\a.pk");
    assert!(config.pack_files[0].compressed);
    assert_eq!(
        config.pack_files[0].args,
        vec![
            dir(ArgEffect::Include, "mesh", false, "*.nif"),
            dir(ArgEffect::Exclude, "mesh\\old", true, ""),
            file(ArgEffect::Include, "a.txt"),
            file(ArgEffect::Include, "b.txt"),
        ]
    );
}

#[test]
fn commands_about_a_pack_need_one() {
    let mut config = Config::default();
    assert!(run_line(&mut config, "add_dir=mesh").is_err());
    assert!(run_line(&mut config, "rem_file=b.txt").is_err());
    assert!(run_command(&mut config, Command::AddFile { filename: "a".to_string() }).is_err());
    assert_eq!(config, Config::default());
    assert!(run_line(&mut config, "end_pack").is_ok());
    assert_eq!(config, Config::default());
}

fn index(archives: &[&str], files: &[(u32, u32, u32)]) -> PackIndex {
    let mut map = BTreeMap::new();
    for (crc, category, pack_file) in files {
        map.insert(*crc, FileRef { category: *category, pack_file: *pack_file });
    }
    PackIndex { archives: list(archives), files: map }
}

fn flat(index: &PackIndex) -> Vec<(u32, u32, u32)> {
    index.files.iter().map(|(k, v)| (*k, v.category, v.pack_file)).collect()
}

#[test]
fn empty_archives_are_pruned() {
    let files = [(5, 1, 3), (7, 0, 1), (9, 1, 1)];
    let pruned = prune(index(&["a", "b", "c", "d", "e"], &files));
    assert_eq!(pruned.archives, vec!["b", "d"]);
    assert_eq!(flat(&pruned), vec![(5, 1, 1), (7, 0, 0), (9, 1, 0)]);
    let before = index(&["a", "b", "c", "d", "e"], &files);
    for (crc, f) in &pruned.files {
        let old = before.files[crc];
        assert_eq!(pruned.archives[f.pack_file as usize], before.archives[old.pack_file as usize]);
    }
}

#[test]
fn pruning_twice_is_pruning_once() {
    let once = prune(index(&["a", "b", "c"], &[(1, 0, 2), (2, 0, 0)]));
    let (archives, files) = (once.archives.clone(), flat(&once));
    let twice = prune(once);
    assert_eq!(twice.archives, archives);
    assert_eq!(flat(&twice), files);
}

#[test]
fn pruning_an_index_without_files_leaves_no_archive() {
    let pruned = prune(index(&["a", "b"], &[]));
    assert!(pruned.archives.is_empty());
    assert!(pruned.files.is_empty());
    let full = prune(index(&["a"], &[(1, 1, 0)]));
    assert_eq!(full.archives, vec!["a"]);
    assert_eq!(flat(&full), vec![(1, 1, 0)]);
}

#[test]
fn commands_of_a_pack() {
    let pack = PackConfig {
        compress: true,
        dirs: list(&["Mesh=0=Re_*"]),
        files: list(&["Names.XML", "fx\\*.psb"]),
        exclude_files: list(&["Gone.TXT", "fx\\old_*"]),
        exclude_dirs: list(&["ui\\dev"]),
    };
    let lines: Vec<String> = pack_commands("Front", &pack)
        .iter()
        .map(|c| match c {
            Command::Pack { filename, force_compression } => format!("pack {} {}", filename, force_compression),
            Command::AddDir(d) => format!("+dir {} {} {}", d.directory, d.recurse_subdirectories, d.filter_wildcard),
            Command::RemDir(d) => format!("-dir {} {} {}", d.directory, d.recurse_subdirectories, d.filter_wildcard),
            Command::AddFile { filename } => format!("+file {}", filename),
            Command::RemFile { filename } => format!("-file {}", filename),
            Command::EndPack => "end".to_string(),
            other => panic!("{:?}", other),
        })
        .collect();
    assert_eq!(
        lines,
        vec![
            "pack pack\\front.pk true",
            "+dir mesh false re_*",
            "-dir ui\\dev true ",
            "+file names.xml",
            "+dir fx false *.psb",
            "-file gone.txt",
            "-dir fx false old_*",
            "end",
        ]
    );
}

#[test]
fn configurations_compare_by_content() {
    let make = |compress: bool| {
        let mut pack = IndexMap::new();
        let none = PackConfig {
            compress,
            dirs: vec![],
            files: vec![],
            exclude_files: vec![],
            exclude_dirs: vec![],
        };
        pack.insert("a".to_string(), none);
        Cfg { pack }
    };
    assert_eq!(make(true), make(true));
    assert_ne!(make(true), make(false));
}
