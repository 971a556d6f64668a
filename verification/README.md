# lu_cache

Prepares a file tree for patching: compresses its files into a cache, keeps the
manifest of the cache up to date, packs the manifests that clients read, and
builds the pack index.

The library is written in Verus. What each function returns or changes is stated
in its contract and proved.

- `src/text.rs`, `src/text_laws.rs`: text and lines.
- `src/digest.rs`: checksums, lines of a manifest, paths in the cache.
- `src/file_map.rs`: the files of a manifest, sorted by path.
- `src/globs.rs`: sets of glob patterns.
- `src/cache.rs`, `src/cache_laws.rs`, `src/run_laws.rs`: scanning a tree or a list of
  files.
- `src/finalize.rs`, `src/finalize_laws.rs`: the manifests that clients read.
- `src/pki.rs`: packs and the pack index.
- `src/options.rs`: options of the commands.
- `app/`: the command line tool. It reads, writes, hashes and compresses files, and
  asks the library what to do with them.

The `*_laws.rs` files hold what is proved of several functions together, such as
that reading a manifest gives back the lines that were written to it.

Functions marked `#[verifier::external_body]` and `assume_specification` items
call `assembly-pack`, `globset`, `indexmap` or the standard library. Their
contracts are taken as given; the comment above each says what is claimed.
