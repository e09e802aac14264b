//! SHA-256 content hashes of documents.

use vstd::prelude::*;
use vstd::utf8::encode_utf8;
use crate::text::{chars_of, contains_str, find, join, owned, lemma_find_from, lines, slice_to_vec, spec_find, spec_join,
    spec_lines, spec_starts_with, spec_trim, starts_with, string_of, strs, trim, views};

verus! {

/// SHA-256 digest of a byte sequence (`sha2::Sha256::digest`).
pub uninterp spec fn spec_sha256(data: Seq<u8>) -> Seq<u8>;

/// Lower-case hexadecimal digit of `d < 16`.
pub open spec fn hex_digit(d: u8) -> char {
    if d < 10 { ((d + 48) as u32) as char } else { ((d + 87) as u32) as char }
}

/// Lower-case hexadecimal text of a byte sequence: two digits per byte.
pub open spec fn spec_hex(data: Seq<u8>) -> Seq<char>
    decreases data.len(),
{
    if data.len() == 0 {
        Seq::empty()
    } else {
        spec_hex(data.drop_last()) + seq![hex_digit(data.last() / 16), hex_digit(data.last() % 16)]
    }
}

/// SHA-256 digest of `data` (`sha2::Sha256::digest`); the result is the
/// digest function applied to the bytes, 32 bytes long.
#[verifier::external_body]
fn sha256(data: &[u8]) -> (r: Vec<u8>)
    ensures
        r@ == spec_sha256(data@),
        r@.len() == 32,
{
    <sha2::Sha256 as sha2::Digest>::digest(data).to_vec()
}

/// Lower-case hexadecimal text of `data` (`hex::encode`): for each byte, the
/// digit of its high nibble then the digit of its low nibble.
#[verifier::external_body]
fn hex_encode(data: &[u8]) -> (s: String)
    ensures
        s@ == spec_hex(data@),
{
    hex::encode(data)
}

/// Two hex digits per byte.
pub proof fn lemma_hex_len(data: Seq<u8>)
    ensures
        spec_hex(data).len() == 2 * data.len(),
    decreases data.len(),
{
    if data.len() > 0 {
        lemma_hex_len(data.drop_last());
    }
}

/// The hash text of a document text: hex of the SHA-256 of its UTF-8 bytes.
pub open spec fn spec_content_hash(s: Seq<char>) -> Seq<char> {
    spec_hex(spec_sha256(encode_utf8(s)))
}

/// A content hash (hex of a SHA-256 digest).
#[derive(Debug, Clone)]
pub struct ContentHash {
    hex: String,
}

impl View for ContentHash {
    type V = Seq<char>;

    closed spec fn view(&self) -> Seq<char> {
        self.hex@
    }
}

impl ContentHash {
    /// The hash of a text (64 hex digits).
    pub fn compute(content: &str) -> (h: ContentHash)
        ensures
            h@ == spec_content_hash(content@),
            h@.len() == 64,
    {
        let bytes = content.as_bytes();
        let digest = sha256(bytes);
        proof {
            lemma_hex_len(digest@);
        }
        ContentHash { hex: hex_encode(digest.as_slice()) }
    }

    /// The hash held by a hex text.
    pub fn from_string(hex: String) -> (h: ContentHash)
        ensures
            h@ == hex@,
    {
        ContentHash { hex }
    }

    /// The full hex text.
    pub fn full(&self) -> (s: &str)
        ensures
            s@ == self@,
    {
        self.hex.as_str()
    }

    /// Whether two hashes are equal.
    pub fn same_as(&self, other: &ContentHash) -> (r: bool)
        ensures
            r == (self@ == other@),
    {
        self.hex == other.hex
    }
}

impl PartialEq for ContentHash {
    fn eq(&self, other: &ContentHash) -> (r: bool) {
        self.hex == other.hex
    }
}

impl vstd::std_specs::cmp::PartialEqSpecImpl for ContentHash {
    open spec fn obeys_eq_spec() -> bool {
        true
    }

    open spec fn eq_spec(&self, other: &ContentHash) -> bool {
        self@ == other@
    }
}

/// The hash of a document text.
pub fn compute_content_hash(content: &str) -> (h: ContentHash)
    ensures
        h@ == spec_content_hash(content@),
{
    ContentHash::compute(content)
}

/// A line is volatile when, trimmed, it starts with `last_updated:`,
/// `content_hash:` or `file_create:`.
pub open spec fn is_volatile_line(l: Seq<char>) -> bool {
    let t = spec_trim(l);
    spec_starts_with(t, "last_updated:"@) || spec_starts_with(t, "content_hash:"@)
        || spec_starts_with(t, "file_create:"@)
}

/// The lines of a text that are not volatile, joined with `\n`.
pub open spec fn spec_without_volatile(s: Seq<char>) -> Seq<char> {
    spec_join(spec_lines(s).filter(|l: Seq<char>| !is_volatile_line(l)), seq!['\n'])
}

/// The hash of a text without its volatile lines.
pub fn compute_hash_excluding_volatile(content: &str) -> (h: ContentHash)
    ensures
        h@ == spec_content_hash(spec_without_volatile(content@)),
{
    let c = chars_of(content);
    let ls = lines(&c);
    let p1 = chars_of("last_updated:");
    let p2 = chars_of("content_hash:");
    let p3 = chars_of("file_create:");
    let mut kept: Vec<String> = Vec::new();
    let ghost lv = views(ls@);
    let mut i: usize = 0;
    while i < ls.len()
        invariant
            i <= ls@.len(),
            lv == views(ls@),
            p1@ == "last_updated:"@,
            p2@ == "content_hash:"@,
            p3@ == "file_create:"@,
            strs(kept@) == lv.subrange(0, i as int).filter(|l: Seq<char>| !is_volatile_line(l)),
        decreases ls@.len() - i,
    {
        let t = trim(&ls[i]);
        proof {
            let sub = lv.subrange(0, i + 1);
            assert(sub.drop_last() =~= lv.subrange(0, i as int));
            reveal_with_fuel(Seq::<_>::filter, 1);
            assert(lv[i as int] == ls@[i as int]@);
        }
        if !(starts_with(&t, &p1) || starts_with(&t, &p2) || starts_with(&t, &p3)) {
            let l = string_of(&ls[i]);
            let ghost k0 = kept@;
            kept.push(l);
            assert(strs(kept@) =~= strs(k0).push(lv[i as int]));
        }
        i = i + 1;
    }
    assert(lv.subrange(0, lv.len() as int) =~= lv);
    let filtered = join(&kept, "\n");
    proof {
        reveal_strlit("\n");
        assert("\n"@ =~= seq!['\n']);
    }
    ContentHash::compute(filtered.as_str())
}

/// A line that starts, as written, with a volatile field.
pub open spec fn starts_volatile(l: Seq<char>) -> bool {
    spec_starts_with(l, "last_updated:"@) || spec_starts_with(l, "content_hash:"@)
        || spec_starts_with(l, "file_create:"@)
}

/// The lines of a text that do not start with a volatile field, joined
/// with `\n`.
pub open spec fn spec_without_volatile_lines(s: Seq<char>) -> Seq<char> {
    spec_join(spec_lines(s).filter(|l: Seq<char>| !starts_volatile(l)), seq!['\n'])
}

/// The short hash of a document: the first 16 hex digits of the hash of
/// its lines that do not start with a volatile field.
pub open spec fn spec_short_hash(s: Seq<char>) -> Seq<char> {
    spec_content_hash(spec_without_volatile_lines(s)).subrange(0, 16)
}

/// The short hash of a document (see [`spec_short_hash`]).
pub fn short_content_hash(content: &str) -> (r: String)
    ensures
        r@ == spec_short_hash(content@),
        r@.len() == 16,
{
    let c = chars_of(content);
    let ls = lines(&c);
    let p1 = chars_of("last_updated:");
    let p2 = chars_of("content_hash:");
    let p3 = chars_of("file_create:");
    let mut kept: Vec<String> = Vec::new();
    let ghost lv = views(ls@);
    let mut i: usize = 0;
    while i < ls.len()
        invariant
            i <= ls@.len(),
            lv == views(ls@),
            p1@ == "last_updated:"@,
            p2@ == "content_hash:"@,
            p3@ == "file_create:"@,
            strs(kept@) == lv.subrange(0, i as int).filter(|l: Seq<char>| !starts_volatile(l)),
        decreases ls@.len() - i,
    {
        proof {
            let sub = lv.subrange(0, i + 1);
            assert(sub.drop_last() =~= lv.subrange(0, i as int));
            reveal_with_fuel(Seq::<_>::filter, 1);
            assert(lv[i as int] == ls@[i as int]@);
        }
        if !(starts_with(&ls[i], &p1) || starts_with(&ls[i], &p2) || starts_with(&ls[i], &p3)) {
            let l = string_of(&ls[i]);
            let ghost k0 = kept@;
            kept.push(l);
            assert(strs(kept@) =~= strs(k0).push(lv[i as int]));
        }
        i = i + 1;
    }
    assert(lv.subrange(0, lv.len() as int) =~= lv);
    let filtered = join(&kept, "\n");
    proof {
        reveal_strlit("\n");
        assert("\n"@ =~= seq!['\n']);
    }
    let h = ContentHash::compute(filtered.as_str());
    let hc = chars_of(h.full());
    string_of(&slice_to_vec(&hc, 0, 16))
}

/// The body of a document for hashing: when the text starts with `---`
/// and a line `---` follows, the text after that line, trimmed; otherwise
/// the whole text.
pub open spec fn spec_body_content(s: Seq<char>) -> Seq<char> {
    if spec_starts_with(s, "---"@) {
        match spec_find(s.subrange(3, s.len() as int), "\n---"@) {
            Some(e) => if e + 7 < s.len() {
                spec_trim(s.subrange(e + 7, s.len() as int))
            } else {
                s
            },
            None => s,
        }
    } else {
        s
    }
}

/// The body of a document for hashing.
pub fn extract_body_content(content: &str) -> (r: String)
    ensures
        r@ == spec_body_content(content@),
{
    let c = chars_of(content);
    let d = chars_of("---");
    proof {
        reveal_strlit("---");
    }
    if starts_with(&c, &d) {
        let after = slice_to_vec(&c, 3, c.len());
        let pat = chars_of("\n---");
        match find(&after, &pat) {
            Some(e) => {
                proof {
                    lemma_find_from(after@, pat@, 0);
                }
                if c.len() > 7 && e < c.len() - 7 {
                    let rest = slice_to_vec(&c, e + 7, c.len());
                    let t = trim(&rest);
                    return string_of(&t);
                }
            },
            None => {},
        }
    }
    string_of(&c)
}

/// The hash of the body of a document.
pub fn compute_body_hash(content: &str) -> (h: ContentHash)
    ensures
        h@ == spec_content_hash(spec_body_content(content@)),
{
    let body = extract_body_content(content);
    ContentHash::compute(body.as_str())
}

/// Whether `content` has the expected hash.
pub fn verify_content_hash(content: &str, expected: &ContentHash) -> (r: bool)
    ensures
        r == (spec_content_hash(content@) == expected@),
{
    let h = compute_content_hash(content);
    h.same_as(expected)
}

/// Whether two texts have the same hash.
pub fn files_have_same_content(a: &str, b: &str) -> (r: bool)
    ensures
        r == (spec_content_hash(a@) == spec_content_hash(b@)),
{
    let ha = compute_content_hash(a);
    let hb = compute_content_hash(b);
    ha.same_as(&hb)
}

/// The bytes hashed for several documents: each text's UTF-8 bytes
/// followed by a zero byte.
pub open spec fn multi_bytes(cs: Seq<Seq<char>>) -> Seq<u8>
    decreases cs.len(),
{
    if cs.len() == 0 { Seq::empty() } else { multi_bytes(cs.drop_last()) + encode_utf8(cs.last()) + seq![0u8] }
}

/// The combined hash of several documents, given their texts in order:
/// one SHA-256 over each text's bytes followed by a zero byte.
pub fn compute_multi_file_hash(contents: &Vec<String>) -> (h: ContentHash)
    ensures
        h@ == spec_hex(spec_sha256(multi_bytes(strs(contents@)))),
{
    let ghost cv = strs(contents@);
    let mut data: Vec<u8> = Vec::new();
    let mut i: usize = 0;
    assert(cv.subrange(0, 0) =~= Seq::<Seq<char>>::empty());
    while i < contents.len()
        invariant
            i <= contents@.len(),
            cv == strs(contents@),
            data@ == multi_bytes(cv.subrange(0, i as int)),
        decreases contents@.len() - i,
    {
        let ghost sub = cv.subrange(0, i + 1);
        assert(sub.drop_last() =~= cv.subrange(0, i as int));
        assert(sub.last() == contents@[i as int]@);
        let bytes = contents[i].as_str().as_bytes();
        let ghost d0 = data@;
        let mut k: usize = 0;
        while k < bytes.len()
            invariant
                k <= bytes@.len(),
                data@ == d0 + bytes@.subrange(0, k as int),
            decreases bytes@.len() - k,
        {
            data.push(bytes[k]);
            assert(bytes@.subrange(0, k + 1) =~= bytes@.subrange(0, k as int).push(bytes@[k as int]));
            k = k + 1;
        }
        assert(bytes@.subrange(0, bytes@.len() as int) =~= bytes@);
        data.push(0u8);
        assert(data@ =~= multi_bytes(sub));
        i = i + 1;
    }
    assert(cv.subrange(0, contents@.len() as int) =~= cv);
    let digest = sha256(data.as_slice());
    ContentHash { hex: hex_encode(digest.as_slice()) }
}

/// A copy of a hash.
fn copy_hash(h: &ContentHash) -> (c: ContentHash)
    ensures
        c@ == h@,
{
    ContentHash { hex: owned(h.hex.as_str()) }
}

/// A cache entry: path, hash, modification time.
pub type CacheEntry = (String, ContentHash, u64);

/// The map of entries: path to (hash, modification time), later entries
/// overriding earlier ones.
pub open spec fn entries_map(es: Seq<CacheEntry>) -> Map<Seq<char>, (Seq<char>, u64)>
    decreases es.len(),
{
    if es.len() == 0 {
        Map::empty()
    } else {
        entries_map(es.drop_last()).insert(es.last().0@, (es.last().1@, es.last().2))
    }
}

/// No path occurs twice.
pub open spec fn keys_unique(es: Seq<CacheEntry>) -> bool {
    forall|i: int, j: int| 0 <= i < j < es.len() ==> (#[trigger] es[i]).0@ != (#[trigger] es[j]).0@
}

/// What the map of unique entries holds.
proof fn lemma_entries_map(es: Seq<CacheEntry>)
    requires
        keys_unique(es),
    ensures
        forall|i: int| #![trigger es[i]] 0 <= i < es.len() ==>
            entries_map(es).contains_key(es[i].0@) && entries_map(es)[es[i].0@] == (es[i].1@, es[i].2),
        forall|k: Seq<char>| #[trigger] entries_map(es).contains_key(k) ==> exists|i: int| 0 <= i < es.len() && es[i].0@ == k,
        entries_map(es).dom().finite(),
        entries_map(es).len() == es.len(),
    decreases es.len(),
{
    if es.len() > 0 {
        let p = es.drop_last();
        assert forall|i: int, j: int| 0 <= i < j < p.len() implies (#[trigger] p[i]).0@ != (#[trigger] p[j]).0@ by {
            assert(p[i] == es[i] && p[j] == es[j]);
        }
        lemma_entries_map(p);
        let n = es.len() - 1;
        let last = es[n];
        if entries_map(p).contains_key(last.0@) {
            let i = choose|i: int| 0 <= i < p.len() && p[i].0@ == last.0@;
            assert(es[i] == p[i]);
            assert(false);
        }
        assert forall|i: int| #![trigger es[i]] 0 <= i < es.len() implies
            entries_map(es).contains_key(es[i].0@) && entries_map(es)[es[i].0@] == (es[i].1@, es[i].2) by {
            if i < n {
                assert(es[i] == p[i]);
                assert(es[i].0@ != last.0@);
            }
        }
        assert forall|k: Seq<char>| #[trigger] entries_map(es).contains_key(k) implies exists|i: int| 0 <= i < es.len() && es[i].0@ == k by {
            if k != last.0@ {
                assert(entries_map(p).contains_key(k));
                let i = choose|i: int| 0 <= i < p.len() && p[i].0@ == k;
                assert(es[i] == p[i]);
            } else {
                assert(es[n].0@ == k);
            }
        }
    }
}

/// The map of unique entries equals `m` when both hold the same paths with
/// the same values.
proof fn lemma_entries_eq(es: Seq<CacheEntry>, m: Map<Seq<char>, (Seq<char>, u64)>)
    requires
        keys_unique(es),
        forall|i: int| #![trigger es[i]] 0 <= i < es.len() ==> m.contains_key(es[i].0@) && m[es[i].0@] == (es[i].1@, es[i].2),
        forall|k: Seq<char>| #[trigger] m.contains_key(k) ==> exists|i: int| 0 <= i < es.len() && es[i].0@ == k,
    ensures
        entries_map(es) == m,
{
    lemma_entries_map(es);
    assert forall|k: Seq<char>| #[trigger] entries_map(es).contains_key(k) <==> m.contains_key(k) by {
        if entries_map(es).contains_key(k) {
            let i = choose|i: int| 0 <= i < es.len() && es[i].0@ == k;
            assert(m.contains_key(es[i].0@));
        }
        if m.contains_key(k) {
            let i = choose|i: int| 0 <= i < es.len() && es[i].0@ == k;
            assert(entries_map(es).contains_key(es[i].0@));
        }
    }
    assert forall|k: Seq<char>| #[trigger] entries_map(es).contains_key(k) implies entries_map(es)[k] == m[k] by {
        let i = choose|i: int| 0 <= i < es.len() && es[i].0@ == k;
        assert(entries_map(es)[es[i].0@] == (es[i].1@, es[i].2));
    }
    assert(entries_map(es) =~= m);
}

/// A cache of document hashes keyed by path, each entry valid for the
/// modification time it was computed at.
pub struct HashCache {
    entries: Vec<CacheEntry>,
}

impl View for HashCache {
    type V = Map<Seq<char>, (Seq<char>, u64)>;

    closed spec fn view(&self) -> Map<Seq<char>, (Seq<char>, u64)> {
        entries_map(self.entries@)
    }
}

/// The outcome of preloading one file, given as (path, modification time if
/// it could be read, text if it could be read): the cache afterwards and
/// whether the file's hash is now available.
pub open spec fn preload_one(m: Map<Seq<char>, (Seq<char>, u64)>, item: (Seq<char>, Option<u64>, Option<Seq<char>>)) -> (Map<Seq<char>, (Seq<char>, u64)>, bool) {
    match item.1 {
        None => (m, false),
        Some(t) => if m.contains_key(item.0) && m[item.0].1 == t {
            (m, true)
        } else {
            match item.2 {
                Some(c) => (m.insert(item.0, (spec_content_hash(c), t)), true),
                None => (m, false),
            }
        },
    }
}

/// Preloading the first `n` files: the cache afterwards and how many
/// hashes became available.
pub open spec fn preload_fold(m: Map<Seq<char>, (Seq<char>, u64)>, items: Seq<(Seq<char>, Option<u64>, Option<Seq<char>>)>, n: nat) -> (Map<Seq<char>, (Seq<char>, u64)>, nat)
    decreases n,
{
    if n == 0 || n > items.len() {
        (m, 0)
    } else {
        let (m1, c) = preload_fold(m, items, (n - 1) as nat);
        let (m2, ok) = preload_one(m1, items[n - 1]);
        (m2, if ok { c + 1 } else { c })
    }
}

/// The views of preload items.
pub open spec fn items_view(v: Seq<(String, Option<u64>, Option<String>)>) -> Seq<(Seq<char>, Option<u64>, Option<Seq<char>>)> {
    v.map_values(|x: (String, Option<u64>, Option<String>)| (x.0@, x.1, match x.2 { Some(c) => Some(c@), None => None }))
}

impl HashCache {
    /// The entries hold each path once.
    pub closed spec fn wf(&self) -> bool {
        keys_unique(self.entries@)
    }

    /// An empty cache.
    pub fn new() -> (c: HashCache)
        ensures
            c.wf(),
            c@ == Map::<Seq<char>, (Seq<char>, u64)>::empty(),
    {
        HashCache { entries: Vec::new() }
    }

    /// Index of the entry of `path`.
    fn find_index(&self, path: &str) -> (r: Option<usize>)
        ensures
            match r {
                Some(i) => i < self.entries@.len() && self.entries@[i as int].0@ == path@,
                None => forall|i: int| 0 <= i < self.entries@.len() ==> (#[trigger] self.entries@[i]).0@ != path@,
            },
    {
        let mut i: usize = 0;
        while i < self.entries.len()
            invariant
                i <= self.entries@.len(),
                forall|j: int| 0 <= j < i ==> (#[trigger] self.entries@[j]).0@ != path@,
            decreases self.entries@.len() - i,
        {
            if crate::text::str_eq(self.entries[i].0.as_str(), path) {
                return Some(i);
            }
            i = i + 1;
        }
        None
    }

    /// The cached hash of `path` if it was computed at modification time
    /// `modified`.
    pub fn lookup(&self, path: &str, modified: u64) -> (r: Option<ContentHash>)
        requires
            self.wf(),
        ensures
            r is Some <==> (self@.contains_key(path@) && self@[path@].1 == modified),
            r matches Some(h) ==> h@ == self@[path@].0,
    {
        proof {
            lemma_entries_map(self.entries@);
        }
        match self.find_index(path) {
            Some(i) => {
                if self.entries[i].2 == modified {
                    Some(copy_hash(&self.entries[i].1))
                } else {
                    None
                }
            },
            None => {
                proof {
                    if self@.contains_key(path@) {
                        let i = choose|i: int| 0 <= i < self.entries@.len() && self.entries@[i].0@ == path@;
                        assert(self.entries@[i].0@ != path@);
                    }
                }
                None
            },
        }
    }

    /// The hash of `path`: the cached one when it was computed at
    /// modification time `modified`, else the hash of `content` (the
    /// document's text), which is then cached for that time.
    pub fn get_or_compute(&mut self, path: &str, modified: u64, content: &str) -> (h: ContentHash)
        requires
            old(self).wf(),
        ensures
            final(self).wf(),
            if old(self)@.contains_key(path@) && old(self)@[path@].1 == modified {
                h@ == old(self)@[path@].0 && final(self)@ == old(self)@
            } else {
                h@ == spec_content_hash(content@) && final(self)@ == old(self)@.insert(path@, (h@, modified))
            },
            final(self)@ == after_get_or_compute(old(self)@, path@, modified, content@),
    {
        proof {
            lemma_entries_map(self.entries@);
        }
        let ghost es0 = self.entries@;
        match self.find_index(path) {
            Some(i) => {
                if self.entries[i].2 == modified {
                    return copy_hash(&self.entries[i].1);
                }
                let h = ContentHash::compute(content);
                let e: CacheEntry = (owned(path), copy_hash(&h), modified);
                self.entries.set(i, e);
                proof {
                    let es = self.entries@;
                    assert forall|a: int, b: int| 0 <= a < b < es.len() implies (#[trigger] es[a]).0@ != (#[trigger] es[b]).0@ by {
                        assert(es[a].0@ == if a == i { path@ } else { es0[a].0@ });
                        assert(es[b].0@ == if b == i { path@ } else { es0[b].0@ });
                        if a == i { assert(es0[b].0@ != es0[i as int].0@); }
                        if b == i { assert(es0[a].0@ != es0[i as int].0@); }
                    }
                    let m = entries_map(es0).insert(path@, (h@, modified));
                    assert forall|k: Seq<char>| #[trigger] m.contains_key(k) implies exists|j: int| 0 <= j < es.len() && es[j].0@ == k by {
                        if k != path@ {
                            let j = choose|j: int| 0 <= j < es0.len() && es0[j].0@ == k;
                            assert(es[j].0@ == k);
                        } else {
                            assert(es[i as int].0@ == k);
                        }
                    }
                    assert forall|j: int| #![trigger es[j]] 0 <= j < es.len() implies m.contains_key(es[j].0@) && m[es[j].0@] == (es[j].1@, es[j].2) by {
                        if j != i {
                            assert(es[j] == es0[j]);
                            assert(es0[j].0@ != es0[i as int].0@);
                        }
                    }
                    lemma_entries_eq(es, m);
                }
                h
            },
            None => {
                proof {
                    if self@.contains_key(path@) {
                        let j = choose|j: int| 0 <= j < self.entries@.len() && self.entries@[j].0@ == path@;
                        assert(self.entries@[j].0@ != path@);
                    }
                }
                let h = ContentHash::compute(content);
                let e: CacheEntry = (owned(path), copy_hash(&h), modified);
                self.entries.push(e);
                proof {
                    let es = self.entries@;
                    assert(es.drop_last() =~= es0);
                    assert forall|a: int, b: int| 0 <= a < b < es.len() implies (#[trigger] es[a]).0@ != (#[trigger] es[b]).0@ by {
                        if b == es.len() - 1 {
                            assert(es[a] == es0[a]);
                        } else {
                            assert(es[a] == es0[a] && es[b] == es0[b]);
                        }
                    }
                }
                h
            },
        }
    }

    /// Drops the entry of `path`.
    pub fn invalidate(&mut self, path: &str)
        requires
            old(self).wf(),
        ensures
            final(self).wf(),
            final(self)@ == old(self)@.remove(path@),
    {
        proof {
            lemma_entries_map(self.entries@);
        }
        let ghost es0 = self.entries@;
        match self.find_index(path) {
            Some(i) => {
                self.entries.remove(i);
                proof {
                    let es = self.entries@;
                    assert forall|j: int| 0 <= j < es.len() implies #[trigger] es[j] == es0[if j < i { j } else { j + 1 }] by {}
                    assert forall|a: int, b: int| 0 <= a < b < es.len() implies (#[trigger] es[a]).0@ != (#[trigger] es[b]).0@ by {
                        assert(es[a] == es0[if a < i { a } else { a + 1 }]);
                        assert(es[b] == es0[if b < i { b } else { b + 1 }]);
                    }
                    let m = entries_map(es0).remove(path@);
                    assert forall|k: Seq<char>| #[trigger] m.contains_key(k) implies exists|j: int| 0 <= j < es.len() && es[j].0@ == k by {
                        let j0 = choose|j: int| 0 <= j < es0.len() && es0[j].0@ == k;
                        assert(j0 != i);
                        if j0 < i {
                            assert(es[j0] == es0[j0]);
                        } else {
                            assert(es[j0 - 1] == es0[j0]);
                        }
                    }
                    assert forall|j: int| #![trigger es[j]] 0 <= j < es.len() implies m.contains_key(es[j].0@) && m[es[j].0@] == (es[j].1@, es[j].2) by {
                        let j0 = if j < i { j } else { j + 1 };
                        assert(es[j] == es0[j0]);
                        assert(es0[j0].0@ != es0[i as int].0@);
                    }
                    lemma_entries_eq(es, m);
                }
            },
            None => {
                proof {
                    if self@.contains_key(path@) {
                        let j = choose|j: int| 0 <= j < self.entries@.len() && self.entries@[j].0@ == path@;
                        assert(self.entries@[j].0@ != path@);
                    }
                    assert(self@.remove(path@) =~= self@);
                }
            },
        }
    }

    /// Drops every entry.
    pub fn clear(&mut self)
        ensures
            final(self).wf(),
            final(self)@ == Map::<Seq<char>, (Seq<char>, u64)>::empty(),
    {
        self.entries = Vec::new();
    }

    /// Number of cached paths.
    pub fn len(&self) -> (n: usize)
        requires
            self.wf(),
        ensures
            n == self@.len(),
    {
        proof {
            lemma_entries_map(self.entries@);
        }
        self.entries.len()
    }

    /// Whether nothing is cached.
    pub fn is_empty(&self) -> (r: bool)
        requires
            self.wf(),
        ensures
            r == (self@.len() == 0),
    {
        self.len() == 0
    }

    /// Whether `path`, now at modification time `modified`, has no valid
    /// cached hash (not cached, or cached for another time).
    pub fn has_changed(&self, path: &str, modified: u64) -> (r: bool)
        requires
            self.wf(),
        ensures
            r == !(self@.contains_key(path@) && self@[path@].1 == modified),
    {
        self.lookup(path, modified).is_none()
    }

    /// Makes the hash of each file available (see [`preload_one`]), and
    /// tells for how many it is.
    pub fn preload(&mut self, items: &Vec<(String, Option<u64>, Option<String>)>) -> (n: usize)
        requires
            old(self).wf(),
        ensures
            final(self).wf(),
            (final(self)@, n as nat) == preload_fold(old(self)@, items_view(items@), items@.len() as nat),
    {
        let ghost m0 = self@;
        let ghost iv = items_view(items@);
        let mut n: usize = 0;
        let mut i: usize = 0;
        while i < items.len()
            invariant
                i <= items@.len(),
                iv == items_view(items@),
                self.wf(),
                n <= i,
                (self@, n as nat) == preload_fold(m0, iv, i as nat),
            decreases items@.len() - i,
        {
            assert(iv[i as int] == (items@[i as int].0@, items@[i as int].1, match items@[i as int].2 { Some(c) => Some(c@), None => None::<Seq<char>> }));
            match items[i].1 {
                None => {},
                Some(t) => {
                    match self.lookup(items[i].0.as_str(), t) {
                        Some(_) => {
                            n = n + 1;
                        },
                        None => {
                            match &items[i].2 {
                                Some(c) => {
                                    let _ = self.get_or_compute(items[i].0.as_str(), t, c.as_str());
                                    n = n + 1;
                                },
                                None => {},
                            }
                        },
                    }
                },
            }
            i = i + 1;
        }
        n
    }

    /// Drops the entries whose path is not among `existing` (the paths that
    /// still exist), and tells how many were dropped.
    pub fn cleanup_stale(&mut self, existing: &Vec<String>) -> (n: usize)
        requires
            old(self).wf(),
        ensures
            final(self).wf(),
            final(self)@ == old(self)@.restrict(Set::new(|k: Seq<char>| strs(existing@).contains(k))),
            n == old(self)@.len() - final(self)@.len(),
    {
        proof {
            lemma_entries_map(self.entries@);
        }
        let ghost es0 = self.entries@;
        let ghost keep = Set::new(|k: Seq<char>| strs(existing@).contains(k));
        let mut kept: Vec<CacheEntry> = Vec::new();
        let mut dropped: usize = 0;
        let mut i: usize = 0;
        while i < self.entries.len()
            invariant
                i <= es0.len(),
                self.entries@ == es0,
                keys_unique(es0),
                keep == Set::new(|k: Seq<char>| strs(existing@).contains(k)),
                dropped + kept@.len() == i,
                forall|j: int| #![trigger kept@[j]] 0 <= j < kept@.len() ==>
                    exists|a: int| 0 <= a < i && kept@[j].0@ == es0[a].0@ && kept@[j].1@ == es0[a].1@ && kept@[j].2 == es0[a].2
                        && keep.contains(es0[a].0@),
                forall|a: int| #![trigger es0[a]] 0 <= a < i && keep.contains(es0[a].0@) ==>
                    exists|j: int| 0 <= j < kept@.len() && kept@[j].0@ == es0[a].0@,
                keys_unique(kept@),
            decreases es0.len() - i,
        {
            let e = &self.entries[i];
            if contains_str(existing, e.0.as_str()) {
                let ghost k0 = kept@;
                kept.push((owned(e.0.as_str()), copy_hash(&e.1), e.2));
                proof {
                    let kv = kept@;
                    assert(kv.drop_last() =~= k0);
                    assert forall|a: int, b: int| 0 <= a < b < kv.len() implies (#[trigger] kv[a]).0@ != (#[trigger] kv[b]).0@ by {
                        if b == kv.len() - 1 {
                            assert(kv[a] == k0[a]);
                            let a0 = choose|a0: int| 0 <= a0 < i && k0[a].0@ == es0[a0].0@ && k0[a].1@ == es0[a0].1@ && k0[a].2 == es0[a0].2
                                && keep.contains(es0[a0].0@);
                            assert(es0[a0].0@ != es0[i as int].0@);
                        } else {
                            assert(kv[a] == k0[a] && kv[b] == k0[b]);
                        }
                    }
                    assert forall|j: int| #![trigger kv[j]] 0 <= j < kv.len() implies
                        exists|a: int| 0 <= a < i + 1 && kv[j].0@ == es0[a].0@ && kv[j].1@ == es0[a].1@ && kv[j].2 == es0[a].2
                            && keep.contains(es0[a].0@) by {
                        if j < k0.len() {
                            assert(kv[j] == k0[j]);
                            let a0 = choose|a0: int| 0 <= a0 < i && k0[j].0@ == es0[a0].0@ && k0[j].1@ == es0[a0].1@ && k0[j].2 == es0[a0].2
                                && keep.contains(es0[a0].0@);
                            assert(0 <= a0 < i + 1);
                        } else {
                            assert(kv[j].0@ == es0[i as int].0@);
                        }
                    }
                    assert forall|a: int| #![trigger es0[a]] 0 <= a < i + 1 && keep.contains(es0[a].0@) implies
                        exists|j: int| 0 <= j < kv.len() && kv[j].0@ == es0[a].0@ by {
                        if a < i {
                            let j = choose|j: int| 0 <= j < k0.len() && k0[j].0@ == es0[a].0@;
                            assert(kv[j] == k0[j]);
                        } else {
                            assert(kv[kv.len() - 1].0@ == es0[a].0@);
                        }
                    }
                }
            } else {
                dropped = dropped + 1;
            }
            i = i + 1;
        }
        let ghost m = entries_map(es0).restrict(keep);
        proof {
            let kv = kept@;
            assert forall|k: Seq<char>| #[trigger] m.contains_key(k) implies exists|j: int| 0 <= j < kv.len() && kv[j].0@ == k by {
                let a = choose|a: int| 0 <= a < es0.len() && es0[a].0@ == k;
                assert(keep.contains(es0[a].0@));
            }
            assert forall|j: int| #![trigger kv[j]] 0 <= j < kv.len() implies m.contains_key(kv[j].0@) && m[kv[j].0@] == (kv[j].1@, kv[j].2) by {
                let a = choose|a: int| 0 <= a < es0.len() && kv[j].0@ == es0[a].0@ && kv[j].1@ == es0[a].1@ && kv[j].2 == es0[a].2
                    && keep.contains(es0[a].0@);
                assert(entries_map(es0)[es0[a].0@] == (es0[a].1@, es0[a].2));
            }
            lemma_entries_eq(kv, m);
            lemma_entries_map(kv);
        }
        self.entries = kept;
        dropped
    }
}

/// Volatile lines do not count: two texts whose non-volatile lines are the
/// same have the same volatile-excluding hash, whatever their
/// `last_updated:`, `content_hash:` or `file_create:` lines hold.
pub proof fn law_volatile_lines_ignored(a: Seq<char>, b: Seq<char>)
    requires
        spec_lines(a).filter(|l: Seq<char>| !is_volatile_line(l)) == spec_lines(b).filter(|l: Seq<char>| !is_volatile_line(l)),
    ensures
        spec_content_hash(spec_without_volatile(a)) == spec_content_hash(spec_without_volatile(b)),
{
}

/// The cache after [`HashCache::get_or_compute`] on `path` at time `t`.
pub open spec fn after_get_or_compute(m: Map<Seq<char>, (Seq<char>, u64)>, path: Seq<char>, t: u64, content: Seq<char>) -> Map<Seq<char>, (Seq<char>, u64)> {
    if m.contains_key(path) && m[path].1 == t { m } else { m.insert(path, (spec_content_hash(content), t)) }
}

/// A hash once obtained stays valid: right after `get_or_compute` on a
/// path at a modification time, the path holds a hash for that time (so
/// `has_changed` is false and `lookup` finds it), and every other path is
/// untouched.
pub proof fn law_cache_holds_after_compute(m: Map<Seq<char>, (Seq<char>, u64)>, path: Seq<char>, t: u64, content: Seq<char>)
    ensures
        after_get_or_compute(m, path, t, content).contains_key(path),
        after_get_or_compute(m, path, t, content)[path].1 == t,
        forall|k: Seq<char>| k != path ==> (#[trigger] after_get_or_compute(m, path, t, content).contains_key(k)) == m.contains_key(k)
            && (m.contains_key(k) ==> after_get_or_compute(m, path, t, content)[k] == m[k]),
{
}

/// Invalidation forgets: after `invalidate` on a path, the path has no
/// valid hash at any time, and other paths are untouched.
pub proof fn law_cache_invalidate_forgets(m: Map<Seq<char>, (Seq<char>, u64)>, path: Seq<char>)
    ensures
        !m.remove(path).contains_key(path),
        forall|k: Seq<char>| k != path ==> (#[trigger] m.remove(path).contains_key(k)) == m.contains_key(k),
{
}

} // verus!
