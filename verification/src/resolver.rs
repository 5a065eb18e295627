//! From module specifiers to files of the workspace.
//!
//! A specifier is first resolved as the build tools of the ecosystem resolve
//! it, with the path aliases of the workspace. Where that finds nothing and
//! the specifier is relative, the candidates are tried that come from adding
//! an extension or an index file to it: adding, not replacing, so that
//! `./colors.css` can stand for `./colors.css.ts`.

use std::time::{Duration, Instant};
use vstd::prelude::*;
use oxc_resolver::{
    FileSystemOs, ResolveOptions, Resolver, ResolverGeneric, TsconfigDiscovery, TsconfigOptions,
    TsconfigReferences,
};
use crate::profiler::{ProfileStats, Profiler};
use crate::paths::{
    is_same_path, same_path, join_path, joined, normalize_path, normalized, parent_dir, parent_of, strip_root, stripped,
};
use crate::semantic::analyzer::FileSemanticData;
use crate::text::{chars_of, clone_opt, str_eq};
use crate::types::{opt_text, texts};

verus! {

/// `oxc_resolver::ResolverGeneric`, of which `Resolver` is the one for the
/// file system of the machine. Nothing is known of what it holds.
#[verifier::external_type_specification]
#[verifier::external_body]
#[verifier::reject_recursive_types(Fs)]
pub struct ExResolverGeneric<Fs>(ResolverGeneric<Fs>);

/// `oxc_resolver::FileSystemOs`.
#[verifier::external_type_specification]
#[verifier::external_body]
pub struct ExFileSystemOs(FileSystemOs);

/// `std::time::Instant`: a moment of the clock of the machine.
#[verifier::external_type_specification]
#[verifier::external_body]
pub struct ExInstant(Instant);

/// Calls `std::time::Instant::now`. The moment depends on when it is asked
/// for: nothing is claimed of it.
#[verifier::external_body]
fn clock() -> (now: Instant) {
    Instant::now()
}

/// Calls `std::time::Instant::elapsed`: the time since `start`. Nothing is
/// claimed of it.
#[verifier::external_body]
fn time_since(start: &Instant) -> (spent: Duration) {
    start.elapsed()
}

/// Calls `std::time::Duration::as_nanos` and cuts the number to 64 bits.
/// Nothing is claimed of it.
#[verifier::external_body]
fn nanos_of(spent: &Duration) -> (nanos: u64) {
    spent.as_nanos() as u64
}

/// Every extension that is not empty starts with a dot.
pub open spec fn dotted(extensions: Seq<Seq<char>>) -> bool {
    forall|i: int| 0 <= i < extensions.len() ==> (#[trigger] extensions[i]).len() == 0 || extensions[i][0] == '.'
}

/// `Resolver::new`, with the given extensions and, where one is given, the
/// given configuration file, its references followed. The resolver takes
/// only extensions that start with a dot.
#[verifier::external_body]
fn new_resolver(extensions: Vec<String>, config_file: Option<String>) -> Resolver
    requires
        dotted(texts(extensions@)),
{
    let tsconfig = config_file.map(
        |file| TsconfigDiscovery::Manual(
            TsconfigOptions { config_file: file.into(), references: TsconfigReferences::Auto },
        ),
    );
    Resolver::new(ResolveOptions { extensions, tsconfig, ..ResolveOptions::default() })
}

/// `Resolver::resolve` of `specifier` from `directory`: the path of what it
/// finds, as text. What it finds depends on the files on disk.
#[verifier::external_body]
fn resolve_with(resolver: &Resolver, directory: &str, specifier: &str) -> Option<String> {
    resolver.resolve(directory, specifier).ok().and_then(|found| found.path().to_str().map(str::to_owned))
}

/// `Path::exists`: whether the path names something on disk.
#[verifier::external_body]
pub(crate) fn path_exists(path: &str) -> bool {
    std::path::Path::new(path).exists()
}

/// The extensions that the resolver tries, in this order.
pub open spec fn resolver_extensions() -> Seq<Seq<char>> {
    seq![".ts"@, ".tsx"@, ".js"@, ".jsx"@, ".d.ts"@]
}

/// What is added to a relative specifier when nothing else resolves it, in
/// the order in which it is tried.
pub open spec fn fallback_suffixes() -> Seq<Seq<char>> {
    seq![".ts"@, ".tsx"@, ".js"@, ".jsx"@, "/index.ts"@, "/index.js"@]
}

/// The files that a relative specifier can stand for, seen from a directory.
pub open spec fn fallback_candidates(directory: Seq<char>, specifier: Seq<char>) -> Seq<Seq<char>> {
    fallback_suffixes().map_values(|suffix: Seq<char>| normalized(joined(directory, specifier)) + suffix)
}

/// The first index at or after `from` at which `exists` holds `true`.
pub open spec fn first_true(exists: Seq<bool>, from: int) -> Option<int>
    decreases exists.len() - from,
{
    if from < 0 || from >= exists.len() {
        None
    } else if exists[from] {
        Some(from)
    } else {
        first_true(exists, from + 1)
    }
}

/// The candidate that is taken where `exists` says which candidates exist:
/// the first that does.
pub open spec fn chosen(candidates: Seq<Seq<char>>, exists: Seq<bool>) -> Option<Seq<char>> {
    match first_true(exists, 0) {
        Some(i) => if i < candidates.len() {
            Some(candidates[i])
        } else {
            None
        },
        None => None,
    }
}

/// The first of `candidates` that exists.
pub fn choose_candidate(candidates: &Vec<String>, exists: &Vec<bool>) -> (r: Option<String>)
    ensures
        opt_text(r) == chosen(texts(candidates@), exists@),
{
    let mut i: usize = 0;
    while i < exists.len()
        invariant
            i <= exists.len(),
            first_true(exists@, 0) == first_true(exists@, i as int),
        decreases exists.len() - i,
    {
        if exists[i] {
            if i < candidates.len() {
                assert(texts(candidates@)[i as int] == candidates@[i as int]@);
                return Some(candidates[i].clone());
            }
            return None;
        }
        i += 1;
    }
    None
}

/// What a resolution comes to: what the tools found, relative to the
/// workspace root, where they found something, and nothing if that lies
/// outside the root; else what the fallback found.
pub open spec fn settled(found: Option<Seq<char>>, cwd: Seq<char>, fallback: Option<Seq<char>>) -> Option<
    Seq<char>,
> {
    match found {
        Some(path) => stripped(path, cwd),
        None => fallback,
    }
}

/// The outcome of a resolution, from what the tools found and what the
/// fallback found.
pub fn settle_resolution(found: Option<String>, cwd: &str, fallback: Option<String>) -> (r: Option<String>)
    ensures
        opt_text(r) == settled(opt_text(found), cwd@, opt_text(fallback)),
{
    match found {
        Some(path) => strip_root(path.as_str(), cwd),
        None => fallback,
    }
}

/// Whether the specifier is relative: whether it starts with a dot.
pub fn is_relative(specifier: &str) -> (r: bool)
    ensures
        r == (specifier@.len() > 0 && specifier@[0] == '.'),
{
    let chars = chars_of(specifier);
    chars.len() > 0 && chars[0] == '.'
}

/// The candidates for a relative specifier, in the order in which they are
/// tried.
pub fn candidates_for(directory: &str, specifier: &str) -> (out: Vec<String>)
    ensures
        texts(out@) == fallback_candidates(directory@, specifier@),
{
    let base = normalize_path(join_path(directory, specifier).as_str());
    let suffixes = [".ts", ".tsx", ".js", ".jsx", "/index.ts", "/index.js"];
    let mut out: Vec<String> = Vec::new();
    let mut i: usize = 0;
    let ghost all = fallback_candidates(directory@, specifier@);
    assert(fallback_suffixes().len() == 6);
    assert(texts(out@) =~= all.take(0));
    while i < 6
        invariant
            i <= 6,
            base@ == normalized(joined(directory@, specifier@)),
            suffixes@.len() == 6,
            forall|j: int| 0 <= j < 6 ==> (#[trigger] suffixes@[j])@ == fallback_suffixes()[j],
            all == fallback_candidates(directory@, specifier@),
            texts(out@) == all.take(i as int),
        decreases 6 - i,
    {
        let mut candidate = base.clone();
        candidate.append(suffixes[i]);
        let ghost before = texts(out@);
        out.push(candidate);
        assert(texts(out@) =~= before.push(candidate@));
        assert(all.take(i + 1) =~= all.take(i as int).push(all[i as int]));
        i += 1;
    }
    assert(all.take(6) =~= all);
    out
}

/// A resolution that was made before.
#[derive(Debug, Clone)]
pub struct CachedResolution {
    pub from_file: String,
    pub specifier: String,
    pub resolved: Option<String>,
}

/// The first entry of `cache` at or after `from` for the file, whatever
/// separates the components of its path, and the specifier.
pub open spec fn cached_at(cache: Seq<CachedResolution>, file: Seq<char>, specifier: Seq<char>, from: int) -> Option<
    int,
>
    decreases cache.len() - from,
{
    if from < 0 || from >= cache.len() {
        None
    } else if same_path(cache[from].from_file@, file) && cache[from].specifier@ == specifier {
        Some(from)
    } else {
        cached_at(cache, file, specifier, from + 1)
    }
}

/// What is remembered for the specifier written in the file: the
/// resolution of the first entry for them, if there is one.
pub open spec fn remembered(cache: Seq<CachedResolution>, file: Seq<char>, specifier: Seq<char>) -> Option<
    Option<Seq<char>>,
> {
    match cached_at(cache, file, specifier, 0) {
        Some(i) => Some(opt_text(cache[i].resolved)),
        None => None,
    }
}

/// What `before` remembered, `after` remembers.
pub open spec fn keeps(after: Seq<CachedResolution>, before: Seq<CachedResolution>) -> bool {
    forall|file: Seq<char>, specifier: Seq<char>|
        remembered(before, file, specifier) is Some ==> #[trigger] remembered(after, file, specifier)
            == remembered(before, file, specifier)
}

proof fn lemma_cached_at(cache: Seq<CachedResolution>, file: Seq<char>, specifier: Seq<char>, from: int)
    requires
        0 <= from,
    ensures
        match cached_at(cache, file, specifier, from) {
            Some(i) => from <= i < cache.len() && same_path(cache[i].from_file@, file) && cache[i].specifier@
                == specifier,
            None => true,
        },
    decreases cache.len() - from,
{
    if from < cache.len() && !(cache[from].from_file@ == file && cache[from].specifier@ == specifier) {
        lemma_cached_at(cache, file, specifier, from + 1);
    }
}

/// An entry added at the end is found where nothing was found before, and
/// changes nothing of what was found.
proof fn lemma_cached_push(
    cache: Seq<CachedResolution>,
    entry: CachedResolution,
    file: Seq<char>,
    specifier: Seq<char>,
    from: int,
)
    requires
        0 <= from <= cache.len(),
    ensures
        cached_at(cache.push(entry), file, specifier, from) == match cached_at(cache, file, specifier, from) {
            Some(i) => Some(i),
            None => if same_path(entry.from_file@, file) && entry.specifier@ == specifier {
                Some(cache.len() as int)
            } else {
                None
            },
        },
    decreases cache.len() - from,
{
    let longer = cache.push(entry);
    if from < cache.len() {
        assert(longer[from] == cache[from]);
        if !(same_path(cache[from].from_file@, file) && cache[from].specifier@ == specifier) {
            lemma_cached_push(cache, entry, file, specifier, from + 1);
        }
    } else {
        assert(longer[from] == entry);
        assert(cached_at(longer, file, specifier, from + 1) is None);
    }
}

/// Resolves the module specifiers of a workspace and remembers what it found.
pub struct ModuleResolver {
    /// The resolver of the build tools.
    pub resolver: Resolver,
    /// The workspace root.
    pub cwd: String,
    /// What was resolved so far, by importing file and specifier.
    pub cache: Vec<CachedResolution>,
    /// Counts the resolutions, the answers from memory among them, and
    /// their time.
    pub profiler: Profiler,
}

/// `after` has counted one resolution more than `before`, a cache hit if
/// `cache_hit`, with whatever time it took.
pub open spec fn counts_resolution(before: Profiler, after: Profiler, cache_hit: bool) -> bool {
    after.on() == before.on() && exists|spent: u64| after.counted() == #[trigger] before.with_resolution(cache_hit, spent)
}

impl ModuleResolver {
    /// A resolver for the workspace at `cwd`. It follows the path aliases of
    /// `tsconfig.base.json` at the root, if that file exists.
    pub fn new(cwd: &str) -> (r: ModuleResolver)
        ensures
            r.cwd@ == cwd@,
            r.cache@.len() == 0,
            !r.profiler.on(),
            r.profiler.counted() == ProfileStats::zero(),
    {
        let config = join_path(cwd, "tsconfig.base.json");
        let config_file = if path_exists(config.as_str()) {
            Some(config)
        } else {
            None
        };
        let mut extensions: Vec<String> = Vec::new();
        extensions.push(String::from_str(".ts"));
        extensions.push(String::from_str(".tsx"));
        extensions.push(String::from_str(".js"));
        extensions.push(String::from_str(".jsx"));
        extensions.push(String::from_str(".d.ts"));
        proof {
            reveal_strlit(".ts");
            reveal_strlit(".tsx");
            reveal_strlit(".js");
            reveal_strlit(".jsx");
            reveal_strlit(".d.ts");
            assert(texts(extensions@) =~= resolver_extensions());
        }
        ModuleResolver {
            resolver: new_resolver(extensions, config_file),
            cwd: cwd.to_owned(),
            cache: Vec::new(),
            profiler: Profiler::new(false),
        }
    }

    /// Counts one resolution that began at `start`, if the time was taken.
    fn count(&mut self, cache_hit: bool, start: &Option<Instant>)
        ensures
            final(self).resolver == old(self).resolver,
            final(self).cwd == old(self).cwd,
            final(self).cache == old(self).cache,
            counts_resolution(old(self).profiler, final(self).profiler, cache_hit),
    {
        let spent = match start {
            Some(begun) => nanos_of(&time_since(begun)),
            None => 0,
        };
        self.profiler.record_resolution(cache_hit, spent);
        assert(self.profiler.counted() == old(self).profiler.with_resolution(cache_hit, spent));
    }

    fn lookup(&self, from_file: &str, specifier: &str) -> (r: Option<usize>)
        ensures
            match r {
                Some(i) => cached_at(self.cache@, from_file@, specifier@, 0) == Some(i as int) && i
                    < self.cache@.len(),
                None => cached_at(self.cache@, from_file@, specifier@, 0) is None,
            },
    {
        let mut i: usize = 0;
        while i < self.cache.len()
            invariant
                i <= self.cache.len(),
                cached_at(self.cache@, from_file@, specifier@, 0) == cached_at(
                    self.cache@,
                    from_file@,
                    specifier@,
                    i as int,
                ),
            decreases self.cache.len() - i,
        {
            if is_same_path(self.cache[i].from_file.as_str(), from_file) && str_eq(
                self.cache[i].specifier.as_str(),
                specifier,
            ) {
                return Some(i);
            }
            i += 1;
        }
        None
    }

    /// The fallback for a relative specifier: the first candidate that exists
    /// on disk, relative to the workspace root. Nothing for a specifier that
    /// is not relative.
    pub fn simple_resolve(&self, directory: &str, specifier: &str) -> (r: Option<String>)
        ensures
            !(specifier@.len() > 0 && specifier@[0] == '.') ==> r is None,
            match r {
                Some(path) => exists|i: int|
                    0 <= i < 6 && stripped_if_rooted(
                        #[trigger] fallback_candidates(directory@, specifier@)[i],
                        self.cwd@,
                    ) == Some(path@),
                None => true,
            },
    {
        if !is_relative(specifier) {
            return None;
        }
        let candidates = candidates_for(directory, specifier);
        let mut exists: Vec<bool> = Vec::new();
        let mut i: usize = 0;
        while i < candidates.len()
            invariant
                i <= candidates.len(),
                exists@.len() == i,
            decreases candidates.len() - i,
        {
            let on_disk = join_path(self.cwd.as_str(), candidates[i].as_str());
            exists.push(path_exists(on_disk.as_str()));
            i += 1;
        }
        proof {
            lemma_first_true(exists@, 0);
        }
        match choose_candidate(&candidates, &exists) {
            Some(path) => {
                let ghost i = first_true(exists@, 0).unwrap();
                assert(texts(candidates@)[i] == path@);
                relative_to(path, self.cwd.as_str())
            },
            None => None,
        }
    }

    /// The file that `specifier`, written in `from_file`, stands for,
    /// relative to the workspace root; nothing if it resolves to no file under
    /// the root. What was resolved once is answered from memory.
    pub fn resolve_import(&mut self, from_file: &str, specifier: &str) -> (r: Option<String>)
        ensures
            final(self).cwd@ == old(self).cwd@,
            match cached_at(old(self).cache@, from_file@, specifier@, 0) {
                Some(i) => final(self).cache@ == old(self).cache@ && opt_text(r) == opt_text(
                    old(self).cache@[i].resolved,
                ),
                None => final(self).cache@.len() == old(self).cache@.len() + 1 && final(self).cache@.take(
                    old(self).cache@.len() as int,
                ) == old(self).cache@ && final(self).cache@[old(self).cache@.len() as int].from_file@
                    == from_file@ && final(self).cache@[old(self).cache@.len() as int].specifier@ == specifier@
                    && opt_text(final(self).cache@[old(self).cache@.len() as int].resolved) == opt_text(r),
            },
            parent_of(from_file@) is None && cached_at(old(self).cache@, from_file@, specifier@, 0) is None
                ==> r is None,
            remembered(final(self).cache@, from_file@, specifier@) == Some(opt_text(r)),
            keeps(final(self).cache@, old(self).cache@),
            counts_resolution(
                old(self).profiler,
                final(self).profiler,
                cached_at(old(self).cache@, from_file@, specifier@, 0) is Some,
            ),
    {
        let start = if self.profiler.is_enabled() {
            Some(clock())
        } else {
            None
        };
        match self.lookup(from_file, specifier) {
            Some(i) => {
                let known = clone_opt(&self.cache[i].resolved);
                self.count(true, &start);
                return known;
            },
            None => {},
        }
        let resolved = match parent_dir(from_file) {
            None => None,
            Some(directory) => {
                let context = join_path(self.cwd.as_str(), directory.as_str());
                let found = resolve_with(&self.resolver, context.as_str(), specifier);
                let fallback = if found.is_none() {
                    self.simple_resolve(directory.as_str(), specifier)
                } else {
                    None
                };
                settle_resolution(found, self.cwd.as_str(), fallback)
            },
        };
        let ghost before = self.cache@;
        self.cache.push(
            CachedResolution {
                from_file: from_file.to_owned(),
                specifier: specifier.to_owned(),
                resolved: clone_opt(&resolved),
            },
        );
        assert(self.cache@.take(before.len() as int) =~= before);
        proof {
            let entry = self.cache@[before.len() as int];
            assert(self.cache@ =~= before.push(entry));
            lemma_cached_push(before, entry, from_file@, specifier@, 0);
            assert forall|file: Seq<char>, spec: Seq<char>| remembered(before, file, spec) is Some implies #[trigger] remembered(
                self.cache@,
                file,
                spec,
            ) == remembered(before, file, spec) by {
                lemma_cached_push(before, entry, file, spec, 0);
                lemma_cached_at(before, file, spec, 0);
            }
        }
        self.count(false, &start);
        resolved
    }
}

/// `path` relative to `cwd` where it starts at the root of the file system,
/// else `path` itself.
pub open spec fn stripped_if_rooted(path: Seq<char>, cwd: Seq<char>) -> Option<Seq<char>> {
    if path.len() > 0 && path[0] == '/' {
        stripped(path, cwd)
    } else {
        Some(path)
    }
}

fn relative_to(path: String, cwd: &str) -> (r: Option<String>)
    ensures
        opt_text(r) == stripped_if_rooted(path@, cwd@),
{
    let chars = chars_of(path.as_str());
    if chars.len() > 0 && chars[0] == '/' {
        strip_root(path.as_str(), cwd)
    } else {
        Some(path)
    }
}

proof fn lemma_first_true(exists: Seq<bool>, from: int)
    requires
        0 <= from,
    ensures
        match first_true(exists, from) {
            Some(i) => from <= i < exists.len() && exists[i],
            None => true,
        },
    decreases exists.len() - from,
{
    if from < exists.len() && !exists[from] {
        lemma_first_true(exists, from + 1);
    }
}

/// Import `k` of the file, where it had no resolution before, resolves to
/// what is remembered for its specifier in the file.
pub open spec fn import_settled(
    cache: Seq<CachedResolution>,
    file: FileSemanticData,
    before: FileSemanticData,
    k: int,
) -> bool {
    before.imports@[k].resolved_file is None ==> remembered(cache, file.path@, file.imports@[k].from_module@)
        == Some(opt_text(file.imports@[k].resolved_file))
}

/// Export `k` of the file, where it re-exports from a module and had no
/// resolution before, resolves to what is remembered for that specifier in
/// the file.
pub open spec fn export_settled(
    cache: Seq<CachedResolution>,
    file: FileSemanticData,
    before: FileSemanticData,
    k: int,
) -> bool {
    before.export_files@[k] is None && file.exports@[k].re_export_from is Some ==> remembered(
        cache,
        file.path@,
        file.exports@[k].re_export_from.unwrap()@,
    ) == Some(opt_text(file.export_files@[k]))
}

/// Every import and every re-export of the file that had no resolution
/// before resolves to what is remembered for it.
pub open spec fn file_settled(cache: Seq<CachedResolution>, file: FileSemanticData, before: FileSemanticData) -> bool {
    &&& forall|k: int| 0 <= k < file.imports@.len() ==> #[trigger] import_settled(cache, file, before, k)
    &&& forall|k: int| 0 <= k < file.exports@.len() ==> #[trigger] export_settled(cache, file, before, k)
}

/// Resolves every import and every re-export of `files` that has no
/// resolution yet: each is asked of the resolver, for the file it stands in,
/// and gets what the resolver then remembers for it. What the resolver
/// remembered before, it still remembers. Nothing else of the files changes.
pub fn resolve_modules(files: &mut Vec<FileSemanticData>, resolver: &mut ModuleResolver)
    requires
        forall|f: int| 0 <= f < old(files)@.len() ==> (#[trigger] old(files)@[f]).wf(),
    ensures
        final(files)@.len() == old(files)@.len(),
        final(resolver).cwd@ == old(resolver).cwd@,
        final(resolver).profiler.on() == old(resolver).profiler.on(),
        forall|f: int| 0 <= f < final(files)@.len() ==> same_but_resolved(#[trigger] final(files)@[f], old(files)@[f]),
        forall|f: int| 0 <= f < final(files)@.len() ==> (#[trigger] final(files)@[f]).wf(),
        forall|f: int|
            0 <= f < final(files)@.len() ==> file_settled(
                final(resolver).cache@,
                #[trigger] final(files)@[f],
                old(files)@[f],
            ),
        keeps(final(resolver).cache@, old(resolver).cache@),
{
    let n = files.len();
    let mut f: usize = 0;
    while f < n
        invariant
            f <= n,
            n == files@.len(),
            n == old(files)@.len(),
            resolver.cwd@ == old(resolver).cwd@,
            resolver.profiler.on() == old(resolver).profiler.on(),
            forall|t: int| 0 <= t < f ==> same_but_resolved(#[trigger] files@[t], old(files)@[t]),
            forall|t: int| f <= t < n ==> #[trigger] files@[t] == old(files)@[t],
            forall|t: int| 0 <= t < old(files)@.len() ==> (#[trigger] old(files)@[t]).wf(),
            forall|t: int| 0 <= t < f ==> file_settled(resolver.cache@, #[trigger] files@[t], old(files)@[t]),
            keeps(resolver.cache@, old(resolver).cache@),
        decreases n - f,
    {
        let ghost before = files@;
        let ghost cache_before = resolver.cache@;
        let mut file = FileSemanticData {
            path: String::new(),
            source: String::new(),
            nodes: Vec::new(),
            symbols: Vec::new(),
            imports: Vec::new(),
            exports: Vec::new(),
            export_files: Vec::new(),
        };
        std::mem::swap(&mut file, &mut files[f]);
        assert(file == before[f as int]);
        let ghost untouched = file;
        let mut k: usize = 0;
        while k < file.imports.len()
            invariant
                k <= file.imports.len(),
                resolver.cwd@ == old(resolver).cwd@,
                resolver.profiler.on() == old(resolver).profiler.on(),
                same_but_resolved(file, untouched),
                file.export_files == untouched.export_files,
                forall|j: int| k <= j < file.imports@.len() ==> file.imports@[j] == untouched.imports@[j],
                forall|j: int| 0 <= j < k ==> #[trigger] import_settled(resolver.cache@, file, untouched, j),
                keeps(resolver.cache@, cache_before),
            decreases file.imports.len() - k,
        {
            if file.imports[k].resolved_file.is_none() {
                let ghost cache_was = resolver.cache@;
                let ghost file_was = file;
                let found = resolver.resolve_import(file.path.as_str(), file.imports[k].from_module.as_str());
                let ghost was = file.imports@;
                file.imports[k].resolved_file = found;
                assert(file.imports@.len() == was.len());
                assert forall|j: int| k + 1 <= j < file.imports@.len() implies file.imports@[j]
                    == untouched.imports@[j] by {
                    assert(file.imports@[j] == was[j]);
                }
                assert forall|j: int| 0 <= j < k + 1 implies #[trigger] import_settled(
                    resolver.cache@,
                    file,
                    untouched,
                    j,
                ) by {
                    if j < k {
                        assert(file.imports@[j] == was[j]);
                        assert(import_settled(cache_was, file_was, untouched, j));
                    }
                }
                assert forall|j: int| 0 <= j < file.imports@.len() implies same_import(
                    #[trigger] file.imports@[j],
                    untouched.imports@[j],
                ) by {
                    if j != k {
                        assert(file.imports@[j] == was[j]);
                    }
                    assert(same_import(was[j], untouched.imports@[j]));
                }
            }
            k += 1;
        }
        let mut e: usize = 0;
        while e < file.exports.len()
            invariant
                e <= file.exports.len(),
                resolver.cwd@ == old(resolver).cwd@,
                resolver.profiler.on() == old(resolver).profiler.on(),
                same_but_resolved(file, untouched),
                untouched.wf(),
                forall|k: int| e <= k < file.export_files@.len() ==> file.export_files@[k] == untouched.export_files@[k],
                forall|j: int| 0 <= j < file.imports@.len() ==> #[trigger] import_settled(
                    resolver.cache@,
                    file,
                    untouched,
                    j,
                ),
                forall|j: int| 0 <= j < e ==> #[trigger] export_settled(resolver.cache@, file, untouched, j),
                keeps(resolver.cache@, cache_before),
            decreases file.exports.len() - e,
        {
            if file.export_files[e].is_none() {
                match &file.exports[e].re_export_from {
                    Some(from_module) => {
                        let ghost cache_was = resolver.cache@;
                        let ghost file_was = file;
                        let found = resolver.resolve_import(file.path.as_str(), from_module.as_str());
                        let ghost was = file.export_files@;
                        file.export_files[e] = found;
                        assert forall|j: int| 0 <= j < file.imports@.len() implies #[trigger] import_settled(
                            resolver.cache@,
                            file,
                            untouched,
                            j,
                        ) by {
                            assert(import_settled(cache_was, file_was, untouched, j));
                        }
                        assert forall|j: int| 0 <= j < e + 1 implies #[trigger] export_settled(
                            resolver.cache@,
                            file,
                            untouched,
                            j,
                        ) by {
                            if j < e {
                                assert(file.export_files@[j] == was[j]);
                                assert(export_settled(cache_was, file_was, untouched, j));
                            }
                        }
                        assert forall|k: int|
                            0 <= k < file.export_files@.len() && #[trigger] needs_no_resolution(
                                untouched,
                                k,
                            ) implies file.export_files@[k] == untouched.export_files@[k] by {
                            if k != e {
                                assert(file.export_files@[k] == was[k]);
                            }
                        }
                    },
                    None => {},
                }
            }
            e += 1;
        }
        std::mem::swap(&mut file, &mut files[f]);
        proof {
            assert forall|t: int| 0 <= t < f + 1 implies file_settled(
                resolver.cache@,
                #[trigger] files@[t],
                old(files)@[t],
            ) by {
                if t < f {
                    assert(files@[t] == before[t]);
                    assert(file_settled(cache_before, before[t], old(files)@[t]));
                    assert forall|k: int| 0 <= k < files@[t].imports@.len() implies #[trigger] import_settled(
                        resolver.cache@,
                        files@[t],
                        old(files)@[t],
                        k,
                    ) by {
                        assert(import_settled(cache_before, before[t], old(files)@[t], k));
                    }
                    assert forall|k: int| 0 <= k < files@[t].exports@.len() implies #[trigger] export_settled(
                        resolver.cache@,
                        files@[t],
                        old(files)@[t],
                        k,
                    ) by {
                        assert(export_settled(cache_before, before[t], old(files)@[t], k));
                    }
                }
            }
            assert forall|t: int| 0 <= t < f + 1 implies same_but_resolved(#[trigger] files@[t], old(files)@[t]) by {
                if t < f {
                    assert(files@[t] == before[t]);
                }
            }
            assert forall|t: int| f + 1 <= t < n implies #[trigger] files@[t] == old(files)@[t] by {
                assert(files@[t] == before[t]);
            }
        }
        f += 1;
    }
}

/// The import is `other` but for what it resolves to, and resolves to what
/// `other` resolves to where that is known.
pub open spec fn same_import(import: crate::types::Import, other: crate::types::Import) -> bool {
    &&& import.imported_name == other.imported_name
    &&& import.local_name == other.local_name
    &&& import.from_module == other.from_module
    &&& import.is_type_only == other.is_type_only
    &&& import.is_dynamic == other.is_dynamic
    &&& other.resolved_file is Some ==> import.resolved_file == other.resolved_file
}

/// The file is `other` but for what its imports and re-exports resolve to.
pub open spec fn same_but_resolved(file: FileSemanticData, other: FileSemanticData) -> bool {
    &&& file.path == other.path
    &&& file.source == other.source
    &&& file.nodes == other.nodes
    &&& file.symbols == other.symbols
    &&& file.exports == other.exports
    &&& file.imports@.len() == other.imports@.len()
    &&& forall|k: int| 0 <= k < file.imports@.len() ==> same_import(#[trigger] file.imports@[k], other.imports@[k])
    &&& file.export_files@.len() == other.export_files@.len()
    &&& forall|k: int|
        0 <= k < file.export_files@.len() && #[trigger] needs_no_resolution(other, k) ==> file.export_files@[k]
            == other.export_files@[k]
}

/// Export `k` of the file is resolved already, or re-exports from nowhere.
pub open spec fn needs_no_resolution(file: FileSemanticData, k: int) -> bool {
    file.export_files@[k] is Some || (0 <= k < file.exports@.len() && file.exports@[k].re_export_from is None)
}

} // verus!
