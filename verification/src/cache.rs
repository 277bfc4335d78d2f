//! The UID-to-package cache and its file.

use std::collections::HashMap;

use vstd::prelude::*;
use vstd::slice::slice_subrange;

use crate::error::CoreError;
use crate::fs::PathFingerprint;
use crate::path;
use crate::path::join_path;
use crate::text;
use crate::text::{
    chars_of, from_utf8_lossy, is_text, lines_of, parse_u128, parse_u32, parse_u64, push_dec,
    push_text, same, string_of, trimmed, words_of,
};

verus! {

broadcast use vstd::std_specs::hash::group_hash_axioms;

/// How many lookups of one unknown UID may ask for a new listing.
pub const MAX_MISSES: u8 = 3;

/// Length and modification time of a file.
#[derive(Debug, Clone, Copy, PartialEq, Eq, Structural)]
pub struct Fingerprint {
    pub len: u64,
    pub modified_ns: u128,
}

impl Fingerprint {
    /// The fingerprint of a file, if the file could be examined.
    pub fn collect(file: Result<PathFingerprint, CoreError>) -> (r: Option<Self>)
        ensures
            r == match file {
                Ok(fp) => Some(Fingerprint { len: fp.len, modified_ns: fp.modified_ns }),
                Err(_) => None,
            },
    {
        match file {
            Ok(fp) => Some(Self { len: fp.len, modified_ns: fp.modified_ns }),
            Err(_) => None,
        }
    }
}

// ---------------------------------------------------------------------------
// Model
// ---------------------------------------------------------------------------

/// The largest position up to `from` where `p` occurs in `s`, or `-1`.
pub open spec fn last_at(s: Seq<char>, p: Seq<char>, from: int) -> int
    decreases from + 1,
{
    if from < 0 {
        -1
    } else if text::occurs_at(s, p, from) {
        from
    } else {
        last_at(s, p, from - 1)
    }
}

/// What follows the last `p` in `s`; all of `s` if there is none.
pub open spec fn after_last(s: Seq<char>, p: Seq<char>) -> Seq<char> {
    let k = last_at(s, p, s.len() as int);
    if k < 0 {
        s
    } else {
        s.skip(k + p.len())
    }
}

/// The UID and the package that a line of the package listing names:
/// `package:<path>=<package> uid:<uid>`.
pub open spec fn listing_entry(line: Seq<char>) -> Option<(u32, Seq<char>)> {
    match text::natural_upto(text::trim(after_last(line, "uid:"@)), u32::MAX as nat) {
        Some(uid) => {
            let ws = text::words(after_last(line, "="@));
            if ws.len() > 0 {
                Some((uid as u32, ws.first()))
            } else {
                None
            }
        },
        None => None,
    }
}

/// The mapping that the lines of a listing give; a later line overrides.
pub open spec fn listing_map(ls: Seq<Seq<char>>) -> Map<u32, Seq<char>>
    decreases ls.len(),
{
    if ls.len() == 0 {
        Map::empty()
    } else {
        match listing_entry(ls.last()) {
            Some((uid, package)) => listing_map(ls.drop_last()).insert(uid, package),
            None => listing_map(ls.drop_last()),
        }
    }
}

/// A mapping with its names as texts.
pub open spec fn names(m: Map<u32, String>) -> Map<u32, Seq<char>> {
    m.map_values(|s: String| s@)
}

/// What one line of the cache file says.
pub enum CacheLine {
    Nothing,
    Stamp(Fingerprint),
    Package(u32, Seq<char>),
}

/// The meaning of one line of the cache file.
pub open spec fn cache_line(line: Seq<char>) -> CacheLine {
    let ws = text::words(line);
    if ws.len() == 0 {
        CacheLine::Nothing
    } else if ws[0] == "FINGERPRINT"@ {
        if ws.len() >= 3 {
            match (
                text::natural_upto(ws[1], u64::MAX as nat),
                text::natural_upto(ws[2], u128::MAX as nat),
            ) {
                (Some(len), Some(ns)) => CacheLine::Stamp(
                    Fingerprint { len: len as u64, modified_ns: ns as u128 },
                ),
                _ => CacheLine::Nothing,
            }
        } else {
            CacheLine::Nothing
        }
    } else if ws.len() >= 2 {
        match text::natural_upto(ws[0], u32::MAX as nat) {
            Some(uid) => CacheLine::Package(uid as u32, ws[1]),
            None => CacheLine::Nothing,
        }
    } else {
        CacheLine::Nothing
    }
}

/// The mapping that the lines of the cache file give.
pub open spec fn cached_map(ls: Seq<Seq<char>>) -> Map<u32, Seq<char>>
    decreases ls.len(),
{
    if ls.len() == 0 {
        Map::empty()
    } else {
        match cache_line(ls.last()) {
            CacheLine::Package(uid, package) => cached_map(ls.drop_last()).insert(uid, package),
            _ => cached_map(ls.drop_last()),
        }
    }
}

/// The fingerprint that the cache file gives, or `init` if it gives none.
pub open spec fn cached_stamp(ls: Seq<Seq<char>>, init: Option<Fingerprint>) -> Option<Fingerprint>
    decreases ls.len(),
{
    if ls.len() == 0 {
        init
    } else {
        match cache_line(ls.last()) {
            CacheLine::Stamp(fp) => Some(fp),
            _ => cached_stamp(ls.drop_last(), init),
        }
    }
}

/// The line of the cache file for a fingerprint.
pub open spec fn stamp_line(fp: Fingerprint) -> Seq<char> {
    "FINGERPRINT "@ + text::dec(fp.len as nat) + " "@ + text::dec(fp.modified_ns as nat)
}

/// The line of the cache file for a package.
pub open spec fn package_line(uid: u32, package: Seq<char>) -> Seq<char> {
    text::dec(uid as nat) + " "@ + package
}

/// The lines of the cache file, packages in the given order.
pub open spec fn saved_lines(
    stamp: Option<Fingerprint>,
    m: Map<u32, Seq<char>>,
    order: Seq<u32>,
) -> Seq<Seq<char>> {
    (match stamp {
        Some(fp) => seq![stamp_line(fp)],
        None => seq![],
    }) + order.map_values(|uid: u32| package_line(uid, m[uid]))
}

/// Whether `order` lists every key of `m` once.
pub open spec fn lists_keys(order: Seq<u32>, m: Map<u32, Seq<char>>) -> bool {
    order.no_duplicates() && order.to_set() == m.dom()
}

// ---------------------------------------------------------------------------
// Parsing
// ---------------------------------------------------------------------------

/// What follows the last `p` in `s`.
fn suffix_after<'a>(s: &'a [char], p: &str) -> (r: &'a [char])
    ensures
        r@ == after_last(s@, p@),
{
    let c = chars_of(p);
    let n = c.len();
    if s.len() < n {
        proof {
            lemma_last_at_none(s@, p@, s@.len() as int);
        }
        return s;
    }
    let mut k = s.len() - n;
    proof {
        lemma_last_at_skip(s@, p@, s@.len() as int, k as int);
    }
    loop
        invariant
            n == c.len(),
            c@ == p@,
            k + n <= s.len(),
            last_at(s@, p@, s@.len() as int) == last_at(s@, p@, k as int),
        decreases k,
    {
        let h = slice_subrange(s, k, k + n);
        if same(h, c.as_slice()) {
            let r = slice_subrange(s, k + n, s.len());
            assert(r@ =~= s@.skip(k + n));
            return r;
        }
        if k == 0 {
            assert(last_at(s@, p@, -1) == -1);
            return s;
        }
        k -= 1;
    }
}

proof fn lemma_last_at_none(s: Seq<char>, p: Seq<char>, from: int)
    requires
        s.len() < p.len(),
    ensures
        last_at(s, p, from) < 0,
    decreases from + 1,
{
    if from >= 0 {
        lemma_last_at_none(s, p, from - 1);
    }
}

/// Positions too close to the end hold no occurrence.
proof fn lemma_last_at_skip(s: Seq<char>, p: Seq<char>, from: int, k: int)
    requires
        0 <= k <= from,
        k + p.len() == s.len(),
    ensures
        last_at(s, p, from) == last_at(s, p, k),
    decreases from,
{
    if from > k {
        lemma_last_at_skip(s, p, from - 1, k);
    }
}

/// Read the output of the package listing.
pub fn parse_package_list(stdout: &str) -> (mapping: HashMap<u32, String>)
    ensures
        names(mapping@) == listing_map(text::lines(stdout@)),
{
    let chars = chars_of(stdout);
    let ls = lines_of(chars.as_slice());
    let ghost rows = text::rows(ls@);
    let mut mapping: HashMap<u32, String> = HashMap::new();
    let mut i: usize = 0;
    assert(names(mapping@) =~= Map::<u32, Seq<char>>::empty());
    while i < ls.len()
        invariant
            i <= ls.len(),
            rows == text::rows(ls@),
            names(mapping@) == listing_map(rows.take(i as int)),
        decreases ls.len() - i,
    {
        let ghost was = mapping@;
        proof {
            assert(rows.take(i + 1).drop_last() =~= rows.take(i as int));
            assert(rows.take(i + 1).last() == rows[i as int]);
        }
        let line = ls[i];
        let uid_part = trimmed(suffix_after(line, "uid:"));
        if let Some(uid) = parse_u32(uid_part) {
            let ws = words_of(suffix_after(line, "="));
            assert(text::rows(ws@).len() == ws@.len());
            if ws.len() > 0 {
                assert(text::rows(ws@)[0] == ws@[0]@);
                let package = string_of(ws[0]);
                mapping.insert(uid, package);
                assert(names(mapping@) =~= names(was).insert(uid, package@));
            }
        }
        i += 1;
    }
    assert(rows.take(rows.len() as int) =~= rows);
    mapping
}

/// The keys of a mapping, each once, in the order in which it is walked.
fn keys_of(m: &HashMap<u32, String>) -> (r: Vec<u32>)
    ensures
        lists_keys(r@, names(m@)),
{
    let mut out: Vec<u32> = Vec::new();
    for k in it: m.keys()
        invariant
            it.seq().unref().to_set() == m@.dom(),
            it.seq().no_duplicates(),
            out@ == it.seq().unref().take(it.index() as int),
            it.index() == it.seq().len() ==> out@ == it.seq().unref(),
            out@.no_duplicates(),
    {
        assert forall|j: int| 0 <= j < out@.len() implies out@[j] != *k by {
            assert(it.seq()[j] != it.seq()[it.index() as int]);
        }
        out.push(*k);
        assert(it.seq().unref().take(it.index() + 1) =~= it.seq().unref().take(
            it.index() as int,
        ).push(*k));
    }
    assert(names(m@).dom() =~= m@.dom());
    out
}

/// What one line of the cache file says, for code.
enum Entry {
    Nothing,
    Stamp(Fingerprint),
    Package(u32, String),
}

impl Entry {
    spec fn meaning(&self) -> CacheLine {
        match self {
            Entry::Nothing => CacheLine::Nothing,
            Entry::Stamp(fp) => CacheLine::Stamp(*fp),
            Entry::Package(uid, package) => CacheLine::Package(*uid, package@),
        }
    }
}

/// Read one line of the cache file.
fn parse_cache_line(line: &[char]) -> (r: Entry)
    ensures
        r.meaning() == cache_line(line@),
{
    let ws = words_of(line);
    let ghost words = text::rows(ws@);
    if ws.len() == 0 {
        return Entry::Nothing;
    }
    assert(words[0] == ws@[0]@);
    if is_text(ws[0], "FINGERPRINT") {
        if ws.len() >= 3 {
            assert(words[1] == ws@[1]@);
            assert(words[2] == ws@[2]@);
            if let (Some(len), Some(modified_ns)) = (parse_u64(ws[1]), parse_u128(ws[2])) {
                return Entry::Stamp(Fingerprint { len, modified_ns });
            }
        }
    } else if ws.len() >= 2 {
        assert(words[1] == ws@[1]@);
        if let Some(uid) = parse_u32(ws[0]) {
            return Entry::Package(uid, string_of(ws[1]));
        }
    }
    Entry::Nothing
}

/// The fingerprint in the cache file, or `init` if it holds none.
fn file_fingerprint(content: &str, init: Option<Fingerprint>) -> (r: Option<Fingerprint>)
    ensures
        r == cached_stamp(text::lines(content@), init),
{
    let chars = chars_of(content);
    let ls = lines_of(chars.as_slice());
    let ghost rows = text::rows(ls@);
    let mut stamp = init;
    let mut i: usize = 0;
    while i < ls.len()
        invariant
            i <= ls.len(),
            rows == text::rows(ls@),
            stamp == cached_stamp(rows.take(i as int), init),
        decreases ls.len() - i,
    {
        proof {
            assert(rows.take(i + 1).drop_last() =~= rows.take(i as int));
            assert(rows.take(i + 1).last() == rows[i as int]);
        }
        if let Entry::Stamp(fp) = parse_cache_line(ls[i]) {
            stamp = Some(fp);
        }
        i += 1;
    }
    assert(rows.take(rows.len() as int) =~= rows);
    stamp
}

fn same_stamp(a: Option<Fingerprint>, b: Option<Fingerprint>) -> (r: bool)
    ensures
        r == (a == b),
{
    match (a, b) {
        (Some(a), Some(b)) => a == b,
        (None, None) => true,
        _ => false,
    }
}

// ---------------------------------------------------------------------------
// The cache
// ---------------------------------------------------------------------------

/// The state of the cache file on disk.
pub enum CacheFile<'a> {
    /// There is no such file.
    Missing,
    /// There is one, but it cannot be read as text.
    Unreadable,
    /// Its content.
    Readable(&'a str),
}

/// What a lookup reads and changes: the packages by UID, how often each unknown
/// UID was looked up in vain, and whether a lookup refreshed the mapping since
/// the file was written.
#[verifier::ext_equal]
pub struct CacheState {
    pub packages: Map<u32, Seq<char>>,
    pub misses: Map<u32, u8>,
    pub dirty: bool,
}

/// The state after a refresh: the packages of the listing and no misses, if the
/// command gave a listing.
pub open spec fn refreshed(st: CacheState, listing: Option<Seq<u8>>) -> CacheState {
    match listing {
        Some(bytes) => CacheState {
            packages: listing_map(text::lines(text::lossy(bytes))),
            misses: Map::empty(),
            dirty: st.dirty,
        },
        None => st,
    }
}

/// Whether a lookup of `uid` asks for a new listing: it is unknown, and was not
/// missed too often.
pub open spec fn asks_listing(st: CacheState, uid: u32) -> bool {
    &&& !st.packages.contains_key(uid)
    &&& !(st.misses.contains_key(uid) && st.misses[uid] >= MAX_MISSES)
}

/// How often `uid` was missed.
pub open spec fn missed(misses: Map<u32, u8>, uid: u32) -> u8 {
    if misses.contains_key(uid) {
        misses[uid]
    } else {
        0
    }
}

/// The state after a lookup of `uid`.
pub open spec fn looked_up(st: CacheState, uid: u32, listing: Option<Seq<u8>>) -> CacheState {
    if !asks_listing(st, uid) {
        st
    } else {
        let next = refreshed(st, listing);
        CacheState {
            packages: next.packages,
            misses: if next.packages.contains_key(uid) {
                next.misses.remove(uid)
            } else {
                next.misses.insert(uid, (missed(next.misses, uid) + 1) as u8)
            },
            dirty: true,
        }
    }
}

/// The fingerprint that the cache has once its file is loaded.
pub open spec fn loaded_stamp(stamp: Option<Fingerprint>, file: CacheFile<'_>) -> Option<
    Fingerprint,
> {
    match file {
        CacheFile::Readable(content) => cached_stamp(text::lines(content@), stamp),
        _ => stamp,
    }
}

/// Whether the cache is refreshed in place of being loaded: there is no file, or
/// neither the cache nor its file was made for the current fingerprint of the
/// package registry.
pub open spec fn is_stale(
    stamp: Option<Fingerprint>,
    file: CacheFile<'_>,
    current: Option<Fingerprint>,
) -> bool {
    file is Missing || (stamp != current && loaded_stamp(stamp, file) != current)
}

/// The state and the fingerprint after the cache was loaded or refreshed.
pub open spec fn reloaded(
    st: CacheState,
    stamp: Option<Fingerprint>,
    file: CacheFile<'_>,
    current: Option<Fingerprint>,
    listing: Option<Seq<u8>>,
) -> (CacheState, Option<Fingerprint>) {
    if is_stale(stamp, file, current) {
        (CacheState { dirty: false, ..refreshed(st, listing) }, current)
    } else {
        match file {
            CacheFile::Readable(content) => (
                CacheState { packages: cached_map(text::lines(content@)), ..st },
                cached_stamp(text::lines(content@), stamp),
            ),
            _ => (st, stamp),
        }
    }
}

/// Whether a text is that of the cache file, with the packages in some order.
pub open spec fn is_file_text(
    t: Seq<char>,
    stamp: Option<Fingerprint>,
    packages: Map<u32, Seq<char>>,
) -> bool {
    exists|order: Seq<u32>|
        lists_keys(order, packages) && t == text::unlines(
            #[trigger] saved_lines(stamp, packages, order),
        )
}

/// The package of `uid` in `st`.
pub open spec fn package_of(st: CacheState, uid: u32) -> Option<Seq<char>> {
    if st.packages.contains_key(uid) {
        Some(st.packages[uid])
    } else {
        None
    }
}

/// The mapping from UIDs to packages, persistent in a file that is keyed on the
/// fingerprint of the package registry.
#[derive(Debug)]
pub struct UidCache {
    pub mapping: HashMap<u32, String>,
    pub fingerprint: Option<Fingerprint>,
    cache_file: String,
    miss_counts: HashMap<u32, u8>,
    unsaved: bool,
}

impl UidCache {
    /// What a lookup reads and changes.
    pub closed spec fn state(&self) -> CacheState {
        CacheState { packages: names(self.mapping@), misses: self.miss_counts@, dirty: self.unsaved }
    }

    /// The packages by UID.
    pub open spec fn packages(&self) -> Map<u32, Seq<char>> {
        self.state().packages
    }

    /// The fingerprint of the package registry that the mapping was made for.
    pub closed spec fn stamp(&self) -> Option<Fingerprint> {
        self.fingerprint
    }

    /// The path of the cache file.
    pub closed spec fn file(&self) -> Seq<char> {
        self.cache_file@
    }

    /// An empty cache with its file in `cache_dir`.
    pub fn new(cache_dir: &str) -> (r: Self)
        ensures
            r.state() == (CacheState {
                packages: Map::empty(),
                misses: Map::empty(),
                dirty: false,
            }),
            r.stamp() is None,
            r.file() == path::join(cache_dir@, "package_cache.txt"@),
    {
        let r = Self {
            mapping: HashMap::new(),
            fingerprint: None,
            cache_file: join_path(cache_dir, "package_cache.txt"),
            miss_counts: HashMap::new(),
            unsaved: false,
        };
        assert(r.packages() =~= Map::<u32, Seq<char>>::empty());
        r
    }

    /// The path of the cache file.
    pub fn cache_path(&self) -> (r: &str)
        ensures
            r@ == self.file(),
    {
        self.cache_file.as_str()
    }

    /// The fingerprint of the package registry that the mapping was made for.
    pub fn fingerprint(&self) -> (r: Option<Fingerprint>)
        ensures
            r == self.stamp(),
    {
        self.fingerprint
    }

    /// The number of packages.
    pub fn entries(&self) -> (r: usize)
        ensures
            r == self.packages().dom().len(),
    {
        assert(names(self.mapping@).dom() =~= self.mapping@.dom());
        self.mapping.len()
    }

    /// Whether loading the cache asks for a new listing: there is no file, or
    /// neither the cache nor its file was made for the current fingerprint of
    /// the package registry.
    pub fn needs_refresh(&self, file: &CacheFile<'_>, current: Option<Fingerprint>) -> (r: bool)
        ensures
            r == is_stale(self.stamp(), *file, current),
    {
        match file {
            CacheFile::Missing => true,
            CacheFile::Unreadable => !same_stamp(self.fingerprint, current),
            CacheFile::Readable(content) => !same_stamp(self.fingerprint, current)
                && !same_stamp(file_fingerprint(content, self.fingerprint), current),
        }
    }

    /// Load the cache from its file, or refresh it from the output of the
    /// package listing (`None` if that failed) where `needs_refresh` says so.
    /// Returns the text to write to the file after a refresh.
    pub fn load_or_refresh(
        &mut self,
        file: CacheFile<'_>,
        current: Option<Fingerprint>,
        listing: Option<&[u8]>,
    ) -> (r: Option<String>)
        ensures
            final(self).file() == old(self).file(),
            (final(self).state(), final(self).stamp()) == reloaded(
                old(self).state(),
                old(self).stamp(),
                file,
                current,
                text::opt_bytes(listing),
            ),
            r is Some <==> is_stale(old(self).stamp(), file, current),
            r is Some ==> is_file_text(r->0@, final(self).stamp(), final(self).packages()),
    {
        if self.needs_refresh(&file, current) {
            self.refresh(listing);
            self.fingerprint = current;
            self.unsaved = false;
            Some(self.save())
        } else {
            if let CacheFile::Readable(content) = file {
                self.load_from_file(content);
            }
            None
        }
    }

    /// Replace the mapping by that of the package listing, if there is one.
    pub fn refresh(&mut self, listing: Option<&[u8]>)
        ensures
            final(self).state() == refreshed(old(self).state(), text::opt_bytes(listing)),
            final(self).stamp() == old(self).stamp(),
            final(self).file() == old(self).file(),
    {
        if let Some(bytes) = listing {
            let stdout = from_utf8_lossy(bytes);
            self.mapping = parse_package_list(stdout.as_str());
            self.miss_counts.clear();
        }
    }

    /// Whether `get_package(uid, ..)` will use a new listing.
    pub fn wants_listing(&self, uid: u32) -> (r: bool)
        ensures
            r == asks_listing(self.state(), uid),
    {
        if self.mapping.contains_key(&uid) {
            return false;
        }
        match self.miss_counts.get(&uid) {
            Some(count) => *count < MAX_MISSES,
            None => true,
        }
    }

    /// The package of `uid`. An unknown UID refreshes the mapping from the
    /// package listing (`None` if that failed) and is looked up again, unless
    /// it was missed too often.
    pub fn get_package(&mut self, uid: u32, listing: Option<&[u8]>) -> (r: Option<String>)
        ensures
            final(self).stamp() == old(self).stamp(),
            final(self).file() == old(self).file(),
            final(self).state() == looked_up(old(self).state(), uid, text::opt_bytes(listing)),
            text::opt_text(r) == package_of(final(self).state(), uid),
    {
        if let Some(package) = self.mapping.get(&uid) {
            return Some(package.clone());
        }
        if !self.wants_listing(uid) {
            return None;
        }
        self.refresh(listing);
        self.unsaved = true;
        match self.mapping.get(&uid) {
            Some(package) => {
                let name = package.clone();
                self.miss_counts.remove(&uid);
                Some(name)
            },
            None => {
                let count = match self.miss_counts.get(&uid) {
                    Some(count) => *count,
                    None => 0,
                };
                self.miss_counts.insert(uid, count + 1);
                None
            },
        }
    }

    /// The text to write to the cache file if a lookup refreshed the mapping
    /// since it was last written.
    pub fn take_save(&mut self) -> (r: Option<String>)
        ensures
            final(self).state() == (CacheState { dirty: false, ..old(self).state() }),
            final(self).stamp() == old(self).stamp(),
            final(self).file() == old(self).file(),
            r is Some <==> old(self).state().dirty,
            r is Some ==> is_file_text(r->0@, old(self).stamp(), old(self).packages()),
    {
        if self.unsaved {
            let content = self.save();
            self.unsaved = false;
            Some(content)
        } else {
            None
        }
    }

    /// The text of the cache file: the fingerprint, then the packages in some
    /// order.
    pub fn save(&self) -> (r: String)
        ensures
            is_file_text(r@, self.stamp(), self.packages()),
    {
        let mut out: Vec<char> = Vec::new();
        let ghost mut head: Seq<Seq<char>> = seq![];
        if let Some(fp) = self.fingerprint {
            push_text(&mut out, "FINGERPRINT ");
            push_dec(&mut out, fp.len as u128);
            push_text(&mut out, " ");
            push_dec(&mut out, fp.modified_ns);
            out.push('\n');
            proof {
                head = seq![stamp_line(fp)];
                assert(head.drop_last() =~= Seq::<Seq<char>>::empty());
                reveal_with_fuel(text::unlines, 2);
                assert(out@ =~= stamp_line(fp).push('\n'));
                assert(out@ =~= text::unlines(head));
            }
        }
        let keys = keys_of(&self.mapping);
        let ghost m = self.packages();
        let ghost rows = keys@.map_values(|uid: u32| package_line(uid, m[uid]));
        let mut i: usize = 0;
        assert(head + rows.take(0) =~= head);
        while i < keys.len()
            invariant
                i <= keys.len(),
                m == self.packages(),
                lists_keys(keys@, m),
                rows == keys@.map_values(|uid: u32| package_line(uid, m[uid])),
                out@ == text::unlines(head + rows.take(i as int)),
            decreases keys.len() - i,
        {
            let uid = keys[i];
            let ghost was = out@;
            assert(keys@.to_set().contains(uid)) by {
                assert(keys@.contains(keys@[i as int]));
            }
            if let Some(package) = self.mapping.get(&uid) {
                push_dec(&mut out, uid as u128);
                push_text(&mut out, " ");
                push_text(&mut out, package.as_str());
                out.push('\n');
                proof {
                    assert(m[uid] == package@);
                    assert(out@ =~= was + rows[i as int].push('\n'));
                    let next = head + rows.take(i + 1);
                    assert(next.drop_last() =~= head + rows.take(i as int));
                    assert(next.last() == rows[i as int]);
                }
            }
            i += 1;
        }
        proof {
            assert(rows.take(rows.len() as int) =~= rows);
            assert(head + rows =~= saved_lines(self.fingerprint, m, keys@));
        }
        string_of(out.as_slice())
    }

    /// Replace the mapping, and the fingerprint if the file holds one, by the
    /// content of the cache file.
    pub fn load_from_file(&mut self, content: &str)
        ensures
            final(self).state() == (CacheState {
                packages: cached_map(text::lines(content@)),
                ..old(self).state()
            }),
            final(self).stamp() == cached_stamp(text::lines(content@), old(self).stamp()),
            final(self).file() == old(self).file(),
    {
        let chars = chars_of(content);
        let ls = lines_of(chars.as_slice());
        let ghost rows = text::rows(ls@);
        self.mapping.clear();
        let mut i: usize = 0;
        assert(self.packages() =~= Map::<u32, Seq<char>>::empty());
        while i < ls.len()
            invariant
                i <= ls.len(),
                rows == text::rows(ls@),
                self.packages() == cached_map(rows.take(i as int)),
                self.fingerprint == cached_stamp(rows.take(i as int), old(self).stamp()),
                self.miss_counts@ == old(self).state().misses,
                self.file() == old(self).file(),
                self.unsaved == old(self).state().dirty,
            decreases ls.len() - i,
        {
            proof {
                assert(rows.take(i + 1).drop_last() =~= rows.take(i as int));
                assert(rows.take(i + 1).last() == rows[i as int]);
            }
            match parse_cache_line(ls[i]) {
                Entry::Stamp(fp) => {
                    self.fingerprint = Some(fp);
                },
                Entry::Package(uid, package) => {
                    let ghost was = self.mapping@;
                    self.mapping.insert(uid, package);
                    assert(self.packages() =~= names(was).insert(uid, package@));
                },
                Entry::Nothing => {},
            }
            i += 1;
        }
        assert(rows.take(rows.len() as int) =~= rows);
    }
}

// ---------------------------------------------------------------------------
// Laws
// ---------------------------------------------------------------------------

/// Whether every package name of `m` is a single word.
pub open spec fn storable(m: Map<u32, Seq<char>>) -> bool {
    forall|uid: u32| #[trigger] m.contains_key(uid) ==> text::is_word(m[uid])
}

/// Every package name that a listing gives is a single word.
pub proof fn law_listing_is_storable(ls: Seq<Seq<char>>)
    ensures
        storable(listing_map(ls)),
    decreases ls.len(),
{
    if ls.len() > 0 {
        law_listing_is_storable(ls.drop_last());
        text::lemma_words_are_words(after_last(ls.last(), "="@));
    }
}

/// Every package name that the cache file gives is a single word.
pub proof fn law_cached_is_storable(ls: Seq<Seq<char>>)
    ensures
        storable(cached_map(ls)),
    decreases ls.len(),
{
    if ls.len() > 0 {
        law_cached_is_storable(ls.drop_last());
        text::lemma_words_are_words(ls.last());
    }
}

/// A cache that was saved is read back as it was, in whatever order its
/// packages were written.
pub proof fn law_saved_cache_is_read_back(
    stamp: Option<Fingerprint>,
    m: Map<u32, Seq<char>>,
    order: Seq<u32>,
    init: Option<Fingerprint>,
)
    requires
        storable(m),
        lists_keys(order, m),
    ensures
        cached_map(text::lines(text::unlines(saved_lines(stamp, m, order)))) == m,
        cached_stamp(text::lines(text::unlines(saved_lines(stamp, m, order))), init) == match stamp {
            Some(fp) => Some(fp),
            None => init,
        },
{
    let ls = saved_lines(stamp, m, order);
    let head: Seq<Seq<char>> = match stamp {
        Some(fp) => seq![stamp_line(fp)],
        None => seq![],
    };
    let rows = order.map_values(|uid: u32| package_line(uid, m[uid]));
    assert forall|i: int| 0 <= i < head.len() implies text::plain_line(#[trigger] head[i])
        && cache_line(head[i]) == CacheLine::Stamp(stamp->0) by {
        lemma_stamp_line(stamp->0);
    }
    assert forall|i: int| 0 <= i < rows.len() implies text::plain_line(#[trigger] rows[i])
        && cache_line(rows[i]) == CacheLine::Package(order[i], m[order[i]]) by {
        assert(order.to_set().contains(order[i])) by {
            assert(order.contains(order[i]));
        }
        assert(m.contains_key(order[i]));
        lemma_package_line(order[i], m[order[i]]);
    }
    assert forall|i: int| 0 <= i < ls.len() implies text::plain_line(#[trigger] ls[i]) by {
        if i < head.len() {
            assert(text::plain_line(head[i]));
        } else {
            assert(text::plain_line(rows[i - head.len()]));
        }
    }
    text::lemma_lines_unlines(ls, seq![]);
    assert(text::unlines(ls) + Seq::<char>::empty() =~= text::unlines(ls));
    assert(ls + text::lines(Seq::<char>::empty()) =~= ls);
    lemma_cached_rows(head, rows, order, m, stamp, init, rows.len() as int);
    assert(rows.take(rows.len() as int) =~= rows);
    assert(order.take(order.len() as int) =~= order);
    assert(m.restrict(order.to_set()) =~= m);
}

/// What a cache wrote to its file is what it reads from it.
pub proof fn law_file_is_read_back(
    t: Seq<char>,
    stamp: Option<Fingerprint>,
    m: Map<u32, Seq<char>>,
    init: Option<Fingerprint>,
)
    requires
        storable(m),
        is_file_text(t, stamp, m),
    ensures
        cached_map(text::lines(t)) == m,
        cached_stamp(text::lines(t), init) == match stamp {
            Some(fp) => Some(fp),
            None => init,
        },
{
    let order = choose|order: Seq<u32>|
        lists_keys(order, m) && t == text::unlines(#[trigger] saved_lines(stamp, m, order));
    law_saved_cache_is_read_back(stamp, m, order, init);
}

/// A cache that was refreshed stays as it is when it is loaded from the file that
/// was written then, as long as the package registry has the same fingerprint.
pub proof fn law_current_cache_is_kept(
    st: CacheState,
    stamp: Option<Fingerprint>,
    file: CacheFile<'_>,
    current: Option<Fingerprint>,
    listing: Option<Seq<u8>>,
    written: &str,
    later: Option<Seq<u8>>,
)
    requires
        storable(st.packages),
        is_stale(stamp, file, current),
        is_file_text(
            written@,
            current,
            reloaded(st, stamp, file, current, listing).0.packages,
        ),
    ensures
        ({
            let (next, seen) = reloaded(st, stamp, file, current, listing);
            &&& seen == current
            &&& !is_stale(seen, CacheFile::Readable(written), current)
            &&& reloaded(next, seen, CacheFile::Readable(written), current, later) == (next, seen)
        }),
{
    let (next, seen) = reloaded(st, stamp, file, current, listing);
    if let Some(bytes) = listing {
        law_listing_is_storable(text::lines(text::lossy(bytes)));
    }
    law_file_is_read_back(written@, current, next.packages, seen);
}

/// A file that was made for the current fingerprint of the package registry is
/// loaded, whatever the cache held before, and no listing is asked for.
pub proof fn law_matching_file_is_loaded(
    st: CacheState,
    stamp: Option<Fingerprint>,
    content: &str,
    current: Fingerprint,
    listing: Option<Seq<u8>>,
)
    requires
        cached_stamp(text::lines(content@), None) == Some(current),
    ensures
        !is_stale(stamp, CacheFile::Readable(content), Some(current)),
        reloaded(st, stamp, CacheFile::Readable(content), Some(current), listing) == (
            CacheState { packages: cached_map(text::lines(content@)), ..st },
            Some(current),
        ),
{
    lemma_own_stamp(text::lines(content@), stamp);
}

/// A file that holds a fingerprint gives that one, whatever the cache had.
proof fn lemma_own_stamp(ls: Seq<Seq<char>>, init: Option<Fingerprint>)
    requires
        cached_stamp(ls, None) is Some,
    ensures
        cached_stamp(ls, init) == cached_stamp(ls, None),
    decreases ls.len(),
{
    if ls.len() > 0 && !(cache_line(ls.last()) is Stamp) {
        lemma_own_stamp(ls.drop_last(), init);
    }
}

/// A cache survives a restart: from the file that was written for a fingerprint,
/// an empty cache loads the same packages as long as the package registry has
/// that fingerprint, without a listing.
pub proof fn law_cache_survives_restart(
    written: &str,
    m: Map<u32, Seq<char>>,
    current: Option<Fingerprint>,
    listing: Option<Seq<u8>>,
)
    requires
        storable(m),
        is_file_text(written@, current, m),
    ensures
        !is_stale(None, CacheFile::Readable(written), current),
        reloaded(
            CacheState { packages: Map::empty(), misses: Map::empty(), dirty: false },
            None,
            CacheFile::Readable(written),
            current,
            listing,
        ) == (CacheState { packages: m, misses: Map::empty(), dirty: false }, current),
{
    law_file_is_read_back(written@, current, m, None);
}

/// No UID is missed more often than it may be.
pub open spec fn misses_are_bounded(st: CacheState) -> bool {
    forall|uid: u32| #[trigger] st.misses.contains_key(uid) ==> st.misses[uid] <= MAX_MISSES
}

/// A lookup keeps the misses bounded.
pub proof fn law_misses_stay_bounded(st: CacheState, uid: u32, listing: Option<Seq<u8>>)
    requires
        misses_are_bounded(st),
    ensures
        misses_are_bounded(looked_up(st, uid, listing)),
{
    let next = looked_up(st, uid, listing);
    assert forall|u: u32| #[trigger] next.misses.contains_key(u) implies next.misses[u]
        <= MAX_MISSES by {
        assert(st.misses.contains_key(u) || u == uid);
    }
}

/// The state after `n` lookups of `uid` for which there was no listing.
pub open spec fn failed_lookups(st: CacheState, uid: u32, n: nat) -> CacheState
    decreases n,
{
    if n == 0 {
        st
    } else {
        looked_up(failed_lookups(st, uid, (n - 1) as nat), uid, None)
    }
}

/// While there is no listing, an unknown UID that was not missed before asks for
/// one three times, and then no more.
pub proof fn law_lookups_give_up(st: CacheState, uid: u32, n: nat)
    requires
        !st.packages.contains_key(uid),
        !st.misses.contains_key(uid),
    ensures
        asks_listing(failed_lookups(st, uid, n), uid) <==> n < MAX_MISSES,
        failed_lookups(st, uid, n).packages == st.packages,
        missed(failed_lookups(st, uid, n).misses, uid) == if n < MAX_MISSES {
            n
        } else {
            MAX_MISSES as nat
        },
    decreases n,
{
    if n > 0 {
        law_lookups_give_up(st, uid, (n - 1) as nat);
    }
}

/// The first `k` package lines, after the head, give the mapping of the first
/// `k` keys.
proof fn lemma_cached_rows(
    head: Seq<Seq<char>>,
    rows: Seq<Seq<char>>,
    order: Seq<u32>,
    m: Map<u32, Seq<char>>,
    stamp: Option<Fingerprint>,
    init: Option<Fingerprint>,
    k: int,
)
    requires
        0 <= k <= rows.len(),
        rows.len() == order.len(),
        order.to_set() == m.dom(),
        head.len() == (if stamp is Some { 1int } else { 0 }),
        forall|i: int|
            0 <= i < head.len() ==> cache_line(#[trigger] head[i]) == CacheLine::Stamp(stamp->0),
        forall|i: int|
            0 <= i < rows.len() ==> cache_line(#[trigger] rows[i]) == CacheLine::Package(
                order[i],
                m[order[i]],
            ),
    ensures
        cached_map(head + rows.take(k)) == m.restrict(order.take(k).to_set()),
        cached_stamp(head + rows.take(k), init) == match stamp {
            Some(fp) => Some(fp),
            None => init,
        },
    decreases k,
{
    let ls = head + rows.take(k);
    if k == 0 {
        assert(ls =~= head);
        assert(m.restrict(order.take(0).to_set()) =~= Map::<u32, Seq<char>>::empty());
        if head.len() == 1 {
            assert(head.last() == head[0]);
            assert(head.drop_last() =~= Seq::<Seq<char>>::empty());
            assert(cached_map(head.drop_last()) =~= Map::<u32, Seq<char>>::empty());
        }
    } else {
        lemma_cached_rows(head, rows, order, m, stamp, init, k - 1);
        assert(ls.drop_last() =~= head + rows.take(k - 1));
        assert(ls.last() == rows[k - 1]);
        let uid = order[k - 1];
        assert(order.take(k) =~= order.take(k - 1).push(uid));
        assert(order.contains(uid));
        assert(order.to_set().contains(uid));
        assert(m.contains_key(uid));
        assert forall|x: u32| #[trigger] order.take(k).contains(x) <==> order.take(k - 1).contains(
            x,
        ) || x == uid by {
            let a = order.take(k - 1);
            let b = order.take(k);
            assert(b[k - 1] == uid);
            if a.contains(x) {
                let j = choose|j: int| 0 <= j < a.len() && a[j] == x;
                assert(b[j] == x);
            }
            if b.contains(x) && x != uid {
                let j = choose|j: int| 0 <= j < b.len() && b[j] == x;
                assert(a[j] == x);
            }
        }
        assert(m.restrict(order.take(k).to_set()) =~= m.restrict(
            order.take(k - 1).to_set(),
        ).insert(uid, m[uid]));
    }
}

proof fn lemma_stamp_line(fp: Fingerprint)
    ensures
        text::plain_line(stamp_line(fp)),
        cache_line(stamp_line(fp)) == CacheLine::Stamp(fp),
{
    let a = "FINGERPRINT"@;
    let b = text::dec(fp.len as nat);
    let c = text::dec(fp.modified_ns as nat);
    reveal_strlit("FINGERPRINT");
    reveal_strlit("FINGERPRINT ");
    reveal_strlit(" ");
    text::lemma_dec_no_space(fp.len as nat);
    text::lemma_dec_no_space(fp.modified_ns as nat);
    text::lemma_dec_natural(fp.len as nat);
    text::lemma_dec_natural(fp.modified_ns as nat);
    let sp = seq![' '];
    assert("FINGERPRINT "@ =~= a + sp);
    assert(" "@ =~= sp);
    let line = stamp_line(fp);
    assert(line =~= a + (sp + (b + (sp + c))));
    assert(c + Seq::<char>::empty() =~= c);
    text::lemma_words_first(c, seq![]);
    text::lemma_words_skip_space(' ', c);
    text::lemma_words_first(b, sp + c);
    text::lemma_words_skip_space(' ', b + (sp + c));
    text::lemma_words_first(a, sp + (b + (sp + c)));
    assert(text::words(Seq::<char>::empty()) =~= Seq::<Seq<char>>::empty());
    let ws = text::words(line);
    assert(ws =~= seq![a, b, c]);
    assert forall|i: int| 0 <= i < line.len() implies line[i] != '\n' by {
        if i < 12 {
        } else if i < 12 + b.len() {
            assert(line[i] == b[i - 12]);
        } else if i == 12 + b.len() {
        } else {
            assert(line[i] == c[i - 13 - b.len()]);
        }
    }
    assert(line.last() == c[c.len() - 1]);
}

proof fn lemma_package_line(uid: u32, package: Seq<char>)
    requires
        text::is_word(package),
    ensures
        text::plain_line(package_line(uid, package)),
        cache_line(package_line(uid, package)) == CacheLine::Package(uid, package),
{
    let b = text::dec(uid as nat);
    reveal_strlit("FINGERPRINT");
    reveal_strlit(" ");
    text::lemma_dec_no_space(uid as nat);
    text::lemma_dec_digits(uid as nat);
    text::lemma_dec_natural(uid as nat);
    let sp = seq![' '];
    assert(" "@ =~= sp);
    let line = package_line(uid, package);
    assert(line =~= b + (sp + package));
    assert(package + Seq::<char>::empty() =~= package);
    text::lemma_words_first(package, seq![]);
    text::lemma_words_skip_space(' ', package);
    text::lemma_words_first(b, sp + package);
    assert(text::words(Seq::<char>::empty()) =~= Seq::<Seq<char>>::empty());
    let ws = text::words(line);
    assert(ws =~= seq![b, package]);
    assert(text::is_digit(b[0]));
    assert(b[0] != "FINGERPRINT"@[0]);
    assert forall|i: int| 0 <= i < line.len() implies line[i] != '\n' by {
        if i < b.len() {
            assert(line[i] == b[i]);
        } else if i > b.len() {
            assert(line[i] == package[i - b.len() - 1]);
            assert(!text::is_space(package[i - b.len() - 1]));
        }
    }
    assert(line.last() == package[package.len() - 1]);
    assert(!text::is_space(package[package.len() - 1]));
}

// ---------------------------------------------------------------------------
// Laws: the package listing and the lines of the file
// ---------------------------------------------------------------------------

/// The last place where a text stands is found.
proof fn lemma_after_last(before: Seq<char>, p: Seq<char>, after: Seq<char>)
    requires
        p.len() > 0,
        forall|i: int|
            before.len() < i <= before.len() + after.len() ==> !text::occurs_at(
                before + p + after,
                p,
                i,
            ),
    ensures
        after_last(before + p + after, p) == after,
{
    let s = before + p + after;
    let n = before.len() as int;
    assert(s.subrange(n, n + p.len()) =~= p);
    lemma_last_at_skip(s, p, s.len() as int, (s.len() - p.len()) as int);
    lemma_last_at_down(s, p, (s.len() - p.len()) as int, n);
    assert(s.skip(n + p.len()) =~= after);
}

proof fn lemma_last_at_down(s: Seq<char>, p: Seq<char>, from: int, n: int)
    requires
        0 <= n <= from,
        text::occurs_at(s, p, n),
        forall|i: int| n < i <= from ==> !text::occurs_at(s, p, i),
    ensures
        last_at(s, p, from) == n,
    decreases from,
{
    if from > n {
        lemma_last_at_down(s, p, from - 1, n);
    }
}

/// A line of the listing, `package:<path>=<package> uid:<uid>`, names the package
/// for the UID, whatever the path holds, `=` and `uid:` among it.
pub proof fn law_listing_line(path: Seq<char>, package: Seq<char>, uid: u32)
    requires
        text::is_word(package),
        !package.contains('='),
    ensures
        listing_entry(
            "package:"@ + path + seq!['='] + package + " uid:"@ + text::dec(uid as nat),
        ) == Some((uid, package)),
{
    let n = text::dec(uid as nat);
    let line = "package:"@ + path + seq!['='] + package + " uid:"@ + n;
    reveal_strlit("package:");
    reveal_strlit(" uid:");
    reveal_strlit("uid:");
    reveal_strlit("=");
    text::lemma_dec_digits(uid as nat);
    text::lemma_dec_no_space(uid as nat);
    // What follows the last `uid:`.
    let head = "package:"@ + path + seq!['='] + package + seq![' '];
    assert(line =~= head + "uid:"@ + n);
    assert forall|i: int| head.len() < i <= head.len() + n.len() implies !text::occurs_at(
        head + "uid:"@ + n,
        "uid:"@,
        i,
    ) by {
        let s = head + "uid:"@ + n;
        if text::occurs_at(s, "uid:"@, i) {
            assert(s.subrange(i, i + 4)[0] == "uid:"@[0]);
            assert(s[i] == 'u');
            let k = i - head.len();
            if k < 4 {
                assert(s[i] == "uid:"@[k]);
            } else {
                assert(s[i] == n[k - 4]);
                assert(text::is_digit(n[k - 4]));
            }
        }
    }
    lemma_after_last(head, "uid:"@, n);
    text::lemma_trim_fixed(n);
    text::law_numbers_are_read(uid as nat, 0, u32::MAX as nat);
    assert(text::zeros(0) + n =~= n);
    // What follows the last `=`.
    let front = "package:"@ + path;
    let tail = package + " uid:"@ + n;
    assert("="@ =~= seq!['=']);
    assert(line =~= front + "="@ + tail);
    assert forall|i: int| front.len() < i <= front.len() + tail.len() implies !text::occurs_at(
        front + "="@ + tail,
        "="@,
        i,
    ) by {
        let s = front + "="@ + tail;
        if text::occurs_at(s, "="@, i) {
            assert(s.subrange(i, i + 1)[0] == "="@[0]);
            assert(s[i] == '=');
            let k = i - front.len() - 1;
            assert(s[i] == tail[k]);
            if k < package.len() {
                assert(tail[k] == package[k]);
                assert(package.contains(package[k]));
            } else if k < package.len() + 5 {
                assert(tail[k] == " uid:"@[k - package.len()]);
            } else {
                assert(tail[k] == n[k - package.len() - 5]);
                assert(text::is_digit(n[k - package.len() - 5]));
            }
        }
    }
    lemma_after_last(front, "="@, tail);
    let blank = Seq::<char>::empty();
    let rest = "uid:"@ + n;
    assert(tail =~= blank + package + seq![' '] + rest);
    text::law_words(blank, package, ' ', rest);
}

/// The listing maps a UID to the package of the last line that names it, and maps
/// no UID that no line names.
pub proof fn law_listing(ls: Seq<Seq<char>>, i: int, uid: u32, package: Seq<char>)
    ensures
        0 <= i < ls.len() && listing_entry(ls[i]) == Some((uid, package)) && (forall|j: int|
            i < j < ls.len() ==> match listing_entry(#[trigger] ls[j]) {
                Some((u, _)) => u != uid,
                None => true,
            }) ==> listing_map(ls).contains_pair(uid, package),
        (forall|j: int|
            0 <= j < ls.len() ==> match listing_entry(#[trigger] ls[j]) {
                Some((u, _)) => u != uid,
                None => true,
            }) ==> !listing_map(ls).contains_key(uid),
    decreases ls.len(),
{
    if ls.len() > 0 {
        let front = ls.drop_last();
        assert(ls.last() == ls[ls.len() - 1]);
        assert forall|j: int| 0 <= j < front.len() implies #[trigger] front[j] == ls[j] by {}
        law_listing(front, i, uid, package);
    }
}

/// The mapping is read from the lines of the file that are a number and a word,
/// the fingerprint from one that begins with its name; other lines say nothing.
pub proof fn law_file_lines(uid: u32, package: Seq<char>, rest: Seq<char>, fp: Fingerprint)
    requires
        text::is_word(package),
    ensures
        package_line(uid, package) == text::dec(uid as nat) + seq![' '] + package,
        cache_line(text::dec(uid as nat) + seq![' '] + package) == CacheLine::Package(uid, package),
        stamp_line(fp) == "FINGERPRINT"@ + seq![' '] + text::dec(fp.len as nat) + seq![' ']
            + text::dec(fp.modified_ns as nat),
        cache_line(
            "FINGERPRINT"@ + seq![' '] + text::dec(fp.len as nat) + seq![' '] + text::dec(
                fp.modified_ns as nat,
            ),
        ) == CacheLine::Stamp(fp),
        text::is_blank(rest) ==> cache_line(rest) is Nothing,
        cache_line(package) is Nothing,
{
    lemma_package_line(uid, package);
    lemma_stamp_line(fp);
    reveal_strlit(" ");
    reveal_strlit("FINGERPRINT ");
    reveal_strlit("FINGERPRINT");
    assert(package_line(uid, package) =~= text::dec(uid as nat) + seq![' '] + package);
    assert(stamp_line(fp) =~= "FINGERPRINT"@ + seq![' '] + text::dec(fp.len as nat) + seq![' ']
        + text::dec(fp.modified_ns as nat));
    let blank = Seq::<char>::empty();
    text::law_words(blank, package, ' ', blank);
    assert(blank + package =~= package);
    if text::is_blank(rest) {
        text::law_words(rest, package, ' ', blank);
    }
}

/// The file maps a UID to the package of the last line for it, and no UID for
/// which it has no line; its fingerprint is that of the last line that has one.
pub proof fn law_file(
    ls: Seq<Seq<char>>,
    i: int,
    uid: u32,
    package: Seq<char>,
    fp: Fingerprint,
    init: Option<Fingerprint>,
)
    ensures
        0 <= i < ls.len() && cache_line(ls[i]) == CacheLine::Package(uid, package) && (forall|j: int|
            i < j < ls.len() ==> match cache_line(#[trigger] ls[j]) {
                CacheLine::Package(u, _) => u != uid,
                _ => true,
            }) ==> cached_map(ls).contains_pair(uid, package),
        (forall|j: int|
            0 <= j < ls.len() ==> match cache_line(#[trigger] ls[j]) {
                CacheLine::Package(u, _) => u != uid,
                _ => true,
            }) ==> !cached_map(ls).contains_key(uid),
        0 <= i < ls.len() && cache_line(ls[i]) == CacheLine::Stamp(fp) && (forall|j: int|
            i < j < ls.len() ==> !(cache_line(#[trigger] ls[j]) is Stamp)) ==> cached_stamp(ls, init)
            == Some(fp),
        (forall|j: int| 0 <= j < ls.len() ==> !(cache_line(#[trigger] ls[j]) is Stamp))
            ==> cached_stamp(ls, init) == init,
    decreases ls.len(),
{
    if ls.len() > 0 {
        let front = ls.drop_last();
        assert(ls.last() == ls[ls.len() - 1]);
        assert forall|j: int| 0 <= j < front.len() implies #[trigger] front[j] == ls[j] by {}
        law_file(front, i, uid, package, fp, init);
    }
}

/// A cache whose file is missing, or of which neither it nor its file was made for
/// the current registry, takes its packages from the listing and forgets what was
/// looked up in vain; without a listing it keeps what it has. Either way it is
/// then one for the current registry.
pub proof fn law_stale_cache_is_refreshed(
    st: CacheState,
    stamp: Option<Fingerprint>,
    file: CacheFile<'_>,
    current: Option<Fingerprint>,
    bytes: Seq<u8>,
)
    requires
        match file {
            CacheFile::Missing => true,
            CacheFile::Unreadable => stamp != current,
            CacheFile::Readable(content) => stamp != current && cached_stamp(
                text::lines(content@),
                stamp,
            ) != current,
        },
    ensures
        reloaded(st, stamp, file, current, Some(bytes)) == (
            CacheState {
                packages: listing_map(text::lines(text::lossy(bytes))),
                misses: Map::empty(),
                dirty: false,
            },
            current,
        ),
        reloaded(st, stamp, file, current, None) == (CacheState { dirty: false, ..st }, current),
{
}

/// A known UID gives its package and leaves the cache. An unknown one takes the
/// packages of the listing, if there is one: where that names the UID its package
/// is given, and otherwise none. After three lookups in vain none is given and
/// the listing is left alone.
pub proof fn law_lookup(st: CacheState, uid: u32, bytes: Seq<u8>, listing: Option<Seq<u8>>)
    ensures
        st.packages.contains_key(uid) ==> looked_up(st, uid, listing) == st && package_of(st, uid)
            == Some(st.packages[uid]),
        !st.packages.contains_key(uid) && st.misses.contains_key(uid) && st.misses[uid] >= 3
            ==> looked_up(st, uid, listing) == st && package_of(st, uid) is None,
        !st.packages.contains_key(uid) && !(st.misses.contains_key(uid) && st.misses[uid] >= 3) ==> {
            let names = listing_map(text::lines(text::lossy(bytes)));
            let next = looked_up(st, uid, Some(bytes));
            let vain = looked_up(st, uid, None);
            &&& next.packages == names
            &&& names.contains_key(uid) ==> package_of(next, uid) == Some(names[uid])
                && !next.misses.contains_key(uid)
            &&& !names.contains_key(uid) ==> package_of(next, uid) is None
                && next.misses.contains_pair(uid, 1)
            &&& vain.packages == st.packages
            &&& package_of(vain, uid) is None
            &&& vain.misses.contains_pair(
                uid,
                (if st.misses.contains_key(uid) {
                    st.misses[uid] + 1
                } else {
                    1
                }) as u8,
            )
            &&& next.dirty && vain.dirty
        },
{
}

/// What follows the last mark in a text, which is all of it where there is none.
pub proof fn law_after_last_mark(before: Seq<char>, after: Seq<char>)
    ensures
        !after.contains('=') ==> after_last(after, "="@) == after && after_last(
            before + "="@ + after,
            "="@,
        ) == after,
        !text::contains(after, "uid:"@) ==> after_last(after, "uid:"@) == after && after_last(
            before + "uid:"@ + after,
            "uid:"@,
        ) == after,
{
    reveal_strlit("=");
    reveal_strlit("uid:");
    if !after.contains('=') {
        let s = before + "="@ + after;
        assert forall|i: int| before.len() < i <= before.len() + after.len() implies !text::occurs_at(
            s,
            "="@,
            i,
        ) by {
            if text::occurs_at(s, "="@, i) {
                assert(s.subrange(i, i + 1)[0] == '=');
                assert(s[i] == after[i - before.len() - 1]);
            }
        }
        lemma_after_last(before, "="@, after);
        assert forall|i: int| 0 <= i <= after.len() implies !text::occurs_at(after, "="@, i) by {
            if text::occurs_at(after, "="@, i) {
                assert(after.subrange(i, i + 1)[0] == '=');
                assert(after[i] == '=');
            }
        }
        lemma_last_at_nowhere(after, "="@, after.len() as int);
    }
    if !text::contains(after, "uid:"@) {
        let s = before + "uid:"@ + after;
        let n = before.len() as int;
        assert forall|i: int| n < i <= n + after.len() implies !text::occurs_at(s, "uid:"@, i) by {
            if text::occurs_at(s, "uid:"@, i) {
                assert(s.subrange(i, i + 4)[0] == 'u');
                if i < n + 4 {
                    assert(s[i] == "uid:"@[i - n]);
                } else {
                    let k = i - n - 4;
                    assert(after.subrange(k, k + 4) =~= s.subrange(i, i + 4));
                    assert(text::occurs_at(after, "uid:"@, k));
                }
            }
        }
        lemma_after_last(before, "uid:"@, after);
        lemma_last_at_nowhere(after, "uid:"@, after.len() as int);
    }
}

proof fn lemma_last_at_nowhere(s: Seq<char>, p: Seq<char>, from: int)
    requires
        forall|i: int| 0 <= i <= from ==> !text::occurs_at(s, p, i),
    ensures
        last_at(s, p, from) < 0,
    decreases from + 1,
{
    if from >= 0 {
        lemma_last_at_nowhere(s, p, from - 1);
    }
}

/// A line of a listing gives the number behind its last `uid:`, and the first word
/// behind its last `=`; it gives nothing where one of them is not there, or the
/// number is no UID.
pub proof fn law_listing_entry(
    line: Seq<char>,
    a: Seq<char>,
    b: Seq<char>,
    c: Seq<char>,
    d: Seq<char>,
    k: nat,
    n: nat,
)
    requires
        line == a + "="@ + b || line == b,
        line == c + "uid:"@ + d || line == d,
        !b.contains('='),
        !text::contains(d, "uid:"@),
    ensures
        text::trim(d) == text::zeros(k) + text::dec(n) && n <= 0xffff_ffff && text::words(b).len()
            > 0 ==> listing_entry(line) == Some((n as u32, text::words(b)[0])),
        text::trim(d) == text::zeros(k) + text::dec(n) && n > 0xffff_ffff ==> listing_entry(
            line,
        ) is None,
        text::natural(text::trim(d)) is None ==> listing_entry(line) is None,
        text::words(b).len() == 0 ==> listing_entry(line) is None,
{
    law_after_last_mark(a, b);
    law_after_last_mark(c, d);
    text::law_numbers_are_read(n, k, u32::MAX as nat);
}

/// A line of the file is read by its words, and words that are left over say
/// nothing.
pub proof fn law_file_words(line: Seq<char>, k: nat, n: nat, ns: nat)
    ensures
        ({
            let ws = text::words(line);
            let stamped = ws.len() > 0 && ws[0] == "FINGERPRINT"@;
            &&& ws.len() >= 2 && ws[0] == text::zeros(k) + text::dec(n) ==> cache_line(line) == if n
                <= 0xffff_ffff {
                CacheLine::Package(n as u32, ws[1])
            } else {
                CacheLine::Nothing
            }
            &&& stamped && ws.len() >= 3 && ws[1] == text::dec(n) && ws[2] == text::dec(ns) && n
                <= u64::MAX && ns <= u128::MAX ==> cache_line(line) == CacheLine::Stamp(
                Fingerprint { len: n as u64, modified_ns: ns as u128 },
            )
            &&& stamped && ws.len() >= 3 && (text::natural(ws[1]) is None || text::natural(
                ws[2],
            ) is None) ==> cache_line(line) is Nothing
            &&& stamped && ws.len() < 3 ==> cache_line(line) is Nothing
            &&& ws.len() < 2 ==> cache_line(line) is Nothing
            &&& ws.len() >= 2 && !stamped && text::natural(ws[0]) is None ==> cache_line(
                line,
            ) is Nothing
        }),
{
    reveal_strlit("FINGERPRINT");
    let ws = text::words(line);
    text::law_numbers_are_read(n, k, u32::MAX as nat);
    text::law_numbers_are_read(n, 0, u64::MAX as nat);
    text::law_numbers_are_read(ns, 0, u128::MAX as nat);
    assert(text::zeros(0) + text::dec(n) =~= text::dec(n));
    assert(text::zeros(0) + text::dec(ns) =~= text::dec(ns));
    if ws.len() > 0 && ws[0] == text::zeros(k) + text::dec(n) {
        text::lemma_dec_digits(n);
        assert(text::is_digit(text::dec(n)[0]));
        if k > 0 {
            assert(ws[0][0] == text::zeros(k)[0]);
        } else {
            assert(ws[0][0] == text::dec(n)[0]);
        }
        assert("FINGERPRINT"@[0] == 'F');
    }
}

/// Looking one UID up without a listing changes the misses of no other.
pub proof fn law_other_misses(st: CacheState, uid: u32, other: u32)
    requires
        other != uid,
    ensures
        looked_up(st, uid, None).misses.contains_key(other) <==> st.misses.contains_key(other),
        st.misses.contains_key(other) ==> looked_up(st, uid, None).misses[other]
            == st.misses[other],
{
}

} // verus!
