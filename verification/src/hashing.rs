//! Fingerprints of test files and the check that the tests an agent was
//! graded with are the tests it was given.
//!
//! Each file is fingerprinted with djb2 over its bytes; a workspace keeps its
//! integrity when every original test file is present in it under the same
//! name with the same fingerprint. Extra files do not matter.
use vstd::prelude::*;

verus! {

broadcast use vstd::seq_lib::group_seq_properties;

/// 2^64, the modulus of `u64` arithmetic.
pub open spec fn modulus() -> int {
    0x1_0000_0000_0000_0000
}

/// djb2 over `s` in unbounded integers: `5381 * 33^n + sum of s[i] * 33^(n-1-i)`.
pub open spec fn djb2_poly(s: Seq<u8>) -> int
    decreases s.len(),
{
    if s.len() == 0 {
        5381
    } else {
        djb2_poly(s.drop_last()) * 33 + s.last()
    }
}

/// The djb2 hash of `s`: [`djb2_poly`] modulo 2^64.
pub open spec fn djb2_of(s: Seq<u8>) -> u64 {
    (djb2_poly(s) % modulus()) as u64
}

/// The djb2 hash of `data`: starting from 5381, each byte `b` turns the hash
/// `h` into `h * 33 + b`, wrapping at 2^64.
pub fn djb2(data: &[u8]) -> (h: u64)
    ensures
        h == djb2_of(data@),
{
    let mut hash: u64 = 5381;
    assert(data@.take(0) =~= Seq::<u8>::empty());
    for i in 0..data.len()
        invariant
            hash == djb2_poly(data@.take(i as int)) % modulus(),
    {
        let ghost p = djb2_poly(data@.take(i as int));
        let b = data[i];
        assert(data@.take(i + 1).drop_last() =~= data@.take(i as int));
        assert(data@.take(i + 1).last() == b);
        let m = hash.wrapping_mul(33);
        proof {
            vstd::arithmetic::div_mod::lemma_mul_mod_noop_left(p, 33, modulus());
            assert(m == (p * 33) % modulus());
            vstd::arithmetic::div_mod::lemma_add_mod_noop(p * 33, b as int, modulus());
            vstd::arithmetic::div_mod::lemma_small_mod(b as nat, modulus() as nat);
            vstd::arithmetic::div_mod::lemma_mod_twice(p * 33, modulus());
        }
        hash = m.wrapping_add(b as u64);
        assert(hash == (p * 33 + b) % modulus());
    }
    assert(data@.take(data@.len() as int) =~= data@);
    hash
}

/// djb2 continued over `s` from the unreduced value `h`.
pub open spec fn djb2_poly_from(h: int, s: Seq<u8>) -> int
    decreases s.len(),
{
    if s.len() == 0 {
        h
    } else {
        djb2_poly_from(h, s.drop_last()) * 33 + s.last()
    }
}

/// djb2 continued over `s` from the hash `h`, wrapping at 2^64 as each byte
/// goes in: `h * 33 + b` per byte.
pub open spec fn djb2_continue(h: u64, s: Seq<u8>) -> u64
    decreases s.len(),
{
    if s.len() == 0 {
        h
    } else {
        ((djb2_continue(h, s.drop_last()) * 33 + s.last()) % modulus()) as u64
    }
}

proof fn lemma_poly_concat(a: Seq<u8>, b: Seq<u8>)
    ensures
        djb2_poly(a + b) == djb2_poly_from(djb2_poly(a), b),
    decreases b.len(),
{
    if b.len() == 0 {
        assert(a + b =~= a);
    } else {
        assert((a + b).drop_last() =~= a + b.drop_last());
        lemma_poly_concat(a, b.drop_last());
    }
}

proof fn lemma_continue_mod(h: int, s: Seq<u8>)
    requires
        0 <= h,
    ensures
        djb2_continue((h % modulus()) as u64, s) == djb2_poly_from(h, s) % modulus(),
    decreases s.len(),
{
    if s.len() > 0 {
        lemma_continue_mod(h, s.drop_last());
        let p = djb2_poly_from(h, s.drop_last());
        vstd::arithmetic::div_mod::lemma_mul_mod_noop_left(p, 33, modulus());
        vstd::arithmetic::div_mod::lemma_add_mod_noop(p * 33, s.last() as int, modulus());
        vstd::arithmetic::div_mod::lemma_small_mod(s.last() as nat, modulus() as nat);
        vstd::arithmetic::div_mod::lemma_mod_twice(p * 33, modulus());
        vstd::arithmetic::div_mod::lemma_add_mod_noop((p % modulus()) * 33, s.last() as int, modulus());
        vstd::arithmetic::div_mod::lemma_mod_twice((p % modulus()) * 33, modulus());
    }
}

proof fn lemma_poly_nonneg(h: int, s: Seq<u8>)
    requires
        0 <= h,
    ensures
        0 <= djb2_poly_from(h, s),
    decreases s.len(),
{
    if s.len() > 0 {
        lemma_poly_nonneg(h, s.drop_last());
    }
}

/// Law: the hash of `a` followed by `b` is the hash of `a` continued over
/// the bytes of `b`.
pub proof fn lemma_djb2_concat(a: Seq<u8>, b: Seq<u8>)
    ensures
        djb2_of(a + b) == djb2_continue(djb2_of(a), b),
{
    lemma_poly_concat(a, b);
    lemma_poly_base(a);
    lemma_poly_nonneg(5381, a);
    lemma_continue_mod(djb2_poly(a), b);
}

/// Law: one more byte `x` turns the hash `h` into `h * 33 + x`, wrapping
/// at 2^64.
pub proof fn lemma_djb2_push(a: Seq<u8>, x: u8)
    ensures
        djb2_of(a.push(x)) == ((djb2_of(a) * 33 + x) % modulus()) as u64,
{
    let one = seq![x];
    lemma_djb2_concat(a, one);
    assert(a + one =~= a.push(x));
    assert(one.drop_last() =~= Seq::<u8>::empty());
}

proof fn lemma_poly_base(a: Seq<u8>)
    ensures
        djb2_poly(a) == djb2_poly_from(5381, a),
    decreases a.len(),
{
    if a.len() > 0 {
        lemma_poly_base(a.drop_last());
    }
}

/// No name occurs twice in `s`.
pub open spec fn names_distinct(s: Seq<(String, u64)>) -> bool {
    forall|i: int, j: int| 0 <= i < j < s.len() ==> #[trigger] s[i].0@ != #[trigger] s[j].0@
}

/// The map from names to fingerprints that the entries `s` spell out.
pub open spec fn map_of(s: Seq<(String, u64)>) -> Map<Seq<char>, u64>
    decreases s.len(),
{
    if s.len() == 0 {
        Map::empty()
    } else {
        map_of(s.drop_last()).insert(s.last().0@, s.last().1)
    }
}

proof fn lemma_map_of(s: Seq<(String, u64)>)
    requires
        names_distinct(s),
    ensures
        forall|k: Seq<char>| #[trigger]
            map_of(s).contains_key(k) <==> exists|j: int| 0 <= j < s.len() && s[j].0@ == k,
        forall|j: int|
            0 <= j < s.len() ==> map_of(s).contains_key(#[trigger] s[j].0@) && map_of(s)[s[j].0@]
                == s[j].1,
    decreases s.len(),
{
    if s.len() > 0 {
        let t = s.drop_last();
        assert(names_distinct(t)) by {
            assert forall|i: int, j: int| 0 <= i < j < t.len() implies #[trigger] t[i].0@
                != #[trigger] t[j].0@ by {
                assert(t[i] == s[i] && t[j] == s[j]);
            }
        }
        lemma_map_of(t);
        assert forall|k: Seq<char>| #[trigger]
            map_of(s).contains_key(k) implies exists|j: int| 0 <= j < s.len() && s[j].0@ == k by {
            if k != s.last().0@ {
                assert(map_of(t).contains_key(k));
                let j = choose|j: int| 0 <= j < t.len() && t[j].0@ == k;
                assert(s[j] == t[j]);
                assert(0 <= j < s.len() && s[j].0@ == k);
            } else {
                assert(s[s.len() - 1].0@ == k);
            }
        }
        assert forall|j: int| 0 <= j < s.len() implies map_of(s).contains_key(#[trigger] s[j].0@)
            && map_of(s)[s[j].0@] == s[j].1 by {
            if j < s.len() - 1 {
                assert(s[j] == t[j]);
                assert(s[j].0@ != s[s.len() - 1].0@);
            }
        }
    }
}

/// Fingerprints of the files of a directory, by file name.
pub struct FileHashes {
    entries: Vec<(String, u64)>,
}

impl View for FileHashes {
    type V = Map<Seq<char>, u64>;

    closed spec fn view(&self) -> Map<Seq<char>, u64> {
        map_of(self.entries@)
    }
}

impl FileHashes {
    #[verifier::type_invariant]
    spec fn inv(self) -> bool {
        names_distinct(self.entries@)
    }

    /// No fingerprints.
    pub fn new() -> (r: FileHashes)
        ensures
            r@ == Map::<Seq<char>, u64>::empty(),
    {
        FileHashes { entries: Vec::new() }
    }

    /// The fingerprint recorded for `name`, if any.
    pub fn get(&self, name: &String) -> (r: Option<u64>)
        ensures
            match r {
                Some(h) => self@.contains_key(name@) && self@[name@] == h,
                None => !self@.contains_key(name@),
            },
    {
        proof {
            use_type_invariant(self);
            lemma_map_of(self.entries@);
        }
        let n = self.entries.len();
        for i in 0..n
            invariant
                n == self.entries@.len(),
                names_distinct(self.entries@),
                forall|j: int| 0 <= j < i ==> self.entries@[j].0@ != name@,
        {
            if self.entries[i].0 == *name {
                proof {
                    lemma_map_of(self.entries@);
                }
                assert(map_of(self.entries@).contains_key(self.entries@[i as int].0@));
                return Some(self.entries[i].1);
            }
        }
        None
    }

    /// Records `hash` for `name`, replacing what was recorded for it.
    pub fn insert(&mut self, name: String, hash: u64)
        ensures
            final(self)@ == old(self)@.insert(name@, hash),
    {
        proof {
            use_type_invariant(&*self);
            lemma_map_of(self.entries@);
        }
        let ghost old_entries = self.entries@;
        let n = self.entries.len();
        let mut found: Option<usize> = None;
        for i in 0..n
            invariant
                n == self.entries@.len(),
                self.entries@ == old_entries,
                match found {
                    Some(j) => j < n && self.entries@[j as int].0@ == name@,
                    None => forall|j: int| 0 <= j < i ==> self.entries@[j].0@ != name@,
                },
        {
            if found.is_none() && self.entries[i].0 == name {
                found = Some(i);
            }
        }
        match found {
            Some(j) => {
                let mut entries: Vec<(String, u64)> = Vec::new();
                std::mem::swap(&mut entries, &mut self.entries);
                entries.set(j, (name, hash));
                let ghost s = entries@;
                assert(names_distinct(s)) by {
                    assert forall|a: int, b: int| 0 <= a < b < s.len() implies #[trigger] s[a].0@
                        != #[trigger] s[b].0@ by {
                        assert(old_entries[a].0@ != old_entries[b].0@);
                    }
                }
                self.entries = entries;
                proof {
                    lemma_map_of(s);
                    assert forall|k: Seq<char>| #[trigger]
                        map_of(s).contains_key(k) == map_of(old_entries).insert(
                            name@,
                            hash,
                        ).contains_key(k) by {
                        if map_of(s).contains_key(k) {
                            let i = choose|i: int| 0 <= i < s.len() && s[i].0@ == k;
                            if i != j {
                                assert(s[i] == old_entries[i]);
                            }
                        }
                        if map_of(old_entries).contains_key(k) {
                            let i = choose|i: int| 0 <= i < old_entries.len() && old_entries[i].0@ == k;
                            if i != j {
                                assert(s[i] == old_entries[i]);
                            }
                        }
                    }
                    assert forall|k: Seq<char>| #[trigger]
                        map_of(s).contains_key(k) implies map_of(s)[k] == map_of(
                            old_entries,
                        ).insert(name@, hash)[k] by {
                        let i = choose|i: int| 0 <= i < s.len() && s[i].0@ == k;
                        if i != j {
                            assert(s[i] == old_entries[i]);
                        }
                    }
                    assert(map_of(s) =~= map_of(old_entries).insert(name@, hash));
                }
            },
            None => {
                let mut entries: Vec<(String, u64)> = Vec::new();
                std::mem::swap(&mut entries, &mut self.entries);
                entries.push((name, hash));
                let ghost s = entries@;
                assert(s.drop_last() =~= old_entries);
                assert(names_distinct(s)) by {
                    assert forall|a: int, b: int| 0 <= a < b < s.len() implies #[trigger] s[a].0@
                        != #[trigger] s[b].0@ by {
                        if b == s.len() - 1 {
                            assert(s[a] == old_entries[a]);
                        } else {
                            assert(s[a] == old_entries[a] && s[b] == old_entries[b]);
                        }
                    }
                }
                self.entries = entries;
            },
        }
    }
}

/// The fingerprints of `files`, given as (name, contents) in the order they
/// were read; a later file with the same name replaces an earlier one.
pub open spec fn hashes_of(files: Seq<(String, Vec<u8>)>) -> Map<Seq<char>, u64>
    decreases files.len(),
{
    if files.len() == 0 {
        Map::empty()
    } else {
        hashes_of(files.drop_last()).insert(files.last().0@, djb2_of(files.last().1@))
    }
}

/// Law: the fingerprint recorded under a name is djb2 over the whole
/// contents of the last file read under that name.
pub proof fn lemma_hash_of_last_file(files: Seq<(String, Vec<u8>)>, i: int)
    requires
        0 <= i < files.len(),
        forall|m: int| i < m < files.len() ==> #[trigger] files[m].0@ != files[i].0@,
    ensures
        hashes_of(files).contains_key(files[i].0@),
        hashes_of(files)[files[i].0@] == djb2_of(files[i].1@),
    decreases files.len(),
{
    if i < files.len() - 1 {
        let t = files.drop_last();
        assert forall|m: int| i < m < t.len() implies #[trigger] t[m].0@ != t[i].0@ by {
            assert(t[m] == files[m] && t[i] == files[i]);
        }
        lemma_hash_of_last_file(t, i);
        assert(files[files.len() - 1].0@ != files[i].0@);
    }
}

/// A name is fingerprinted only when some file was read under it.
proof fn lemma_hashes_keys(files: Seq<(String, Vec<u8>)>, k: Seq<char>)
    requires
        forall|m: int| 0 <= m < files.len() ==> #[trigger] files[m].0@ != k,
    ensures
        !hashes_of(files).contains_key(k),
    decreases files.len(),
{
    if files.len() > 0 {
        let t = files.drop_last();
        assert forall|m: int| 0 <= m < t.len() implies #[trigger] t[m].0@ != k by {
            assert(t[m] == files[m]);
        }
        lemma_hashes_keys(t, k);
        assert(files[files.len() - 1].0@ != k);
    }
}

/// Law: an original test file whose current contents (the last file read
/// under its name) hash differently breaks integrity, wherever in the file
/// the change lies.
pub proof fn lemma_changed_file_breaks_integrity(
    originals: Seq<(String, Vec<u8>)>,
    current: Seq<(String, Vec<u8>)>,
    i: int,
    j: int,
)
    requires
        0 <= i < originals.len(),
        0 <= j < current.len(),
        originals[i].0@ == current[j].0@,
        forall|m: int| i < m < originals.len() ==> #[trigger] originals[m].0@ != originals[i].0@,
        forall|m: int| j < m < current.len() ==> #[trigger] current[m].0@ != current[j].0@,
        djb2_of(originals[i].1@) != djb2_of(current[j].1@),
    ensures
        !integrity_holds(hashes_of(originals), hashes_of(current)),
{
    lemma_hash_of_last_file(originals, i);
    lemma_hash_of_last_file(current, j);
    assert(hashes_of(originals).contains_key(originals[i].0@));
}

/// Law: an original test file of which no file of that name is read any
/// more breaks integrity.
pub proof fn lemma_deleted_file_breaks_integrity(
    originals: Seq<(String, Vec<u8>)>,
    current: Seq<(String, Vec<u8>)>,
    i: int,
)
    requires
        0 <= i < originals.len(),
        forall|m: int| 0 <= m < current.len() ==> #[trigger] current[m].0@ != originals[i].0@,
    ensures
        !integrity_holds(hashes_of(originals), hashes_of(current)),
{
    lemma_hashes_has(originals, i);
    lemma_hashes_keys(current, originals[i].0@);
}

/// A name under which some file was read is fingerprinted.
proof fn lemma_hashes_has(files: Seq<(String, Vec<u8>)>, i: int)
    requires
        0 <= i < files.len(),
    ensures
        hashes_of(files).contains_key(files[i].0@),
    decreases files.len(),
{
    if i < files.len() - 1 {
        let t = files.drop_last();
        assert(t[i] == files[i]);
        lemma_hashes_has(t, i);
    }
}

/// Fingerprints every file read from a directory, by name.
pub fn hash_files(files: &Vec<(String, Vec<u8>)>) -> (r: FileHashes)
    ensures
        r@ == hashes_of(files@),
{
    let mut r = FileHashes::new();
    assert(files@.take(0) =~= Seq::<(String, Vec<u8>)>::empty());
    for i in 0..files.len()
        invariant
            r@ == hashes_of(files@.take(i as int)),
    {
        assert(files@.take(i + 1).drop_last() =~= files@.take(i as int));
        let h = djb2(files[i].1.as_slice());
        r.insert(files[i].0.clone(), h);
    }
    assert(files@.take(files@.len() as int) =~= files@);
    r
}

/// The tests kept their integrity: every original file is in the current
/// set under its name, with the same fingerprint.
pub open spec fn integrity_holds(originals: Map<Seq<char>, u64>, current: Map<Seq<char>, u64>) -> bool {
    forall|k: Seq<char>| #[trigger]
        originals.contains_key(k) ==> current.contains_key(k) && current[k] == originals[k]
}

/// Whether every original test file is still present, unchanged, among the
/// current ones: `false` as soon as one is missing or has another fingerprint.
pub fn check_test_integrity(originals: &FileHashes, current: &FileHashes) -> (r: bool)
    ensures
        r == integrity_holds(originals@, current@),
{
    proof {
        use_type_invariant(originals);
        lemma_map_of(originals.entries@);
    }
    let n = originals.entries.len();
    for i in 0..n
        invariant
            n == originals.entries@.len(),
            names_distinct(originals.entries@),
            forall|j: int|
                0 <= j < i ==> current@.contains_key(#[trigger] originals.entries@[j].0@)
                    && current@[originals.entries@[j].0@] == originals.entries@[j].1,
    {
        let entry = &originals.entries[i];
        proof {
            lemma_map_of(originals.entries@);
            assert(originals@.contains_key(originals.entries@[i as int].0@));
        }
        match current.get(&entry.0) {
            None => {
                return false;
            },
            Some(h) => {
                if h != entry.1 {
                    return false;
                }
            },
        }
    }
    proof {
        lemma_map_of(originals.entries@);
    }
    assert forall|k: Seq<char>| #[trigger] originals@.contains_key(k) implies current@.contains_key(
        k,
    ) && current@[k] == originals@[k] by {
        let j = choose|j: int| 0 <= j < n && originals.entries@[j].0@ == k;
        assert(current@.contains_key(originals.entries@[j].0@));
    }
    true
}

/// Law: a set of fingerprints keeps its integrity against itself, so a
/// workspace whose test files are byte for byte the originals passes.
pub proof fn lemma_integrity_reflexive(h: Map<Seq<char>, u64>)
    ensures
        integrity_holds(h, h),
{
}

/// Law: files added to the workspace beside the original tests do not break
/// integrity.
pub proof fn lemma_integrity_extra_files(
    originals: Map<Seq<char>, u64>,
    current: Map<Seq<char>, u64>,
    extended: Map<Seq<char>, u64>,
)
    requires
        integrity_holds(originals, current),
        forall|k: Seq<char>| #[trigger]
            current.contains_key(k) ==> extended.contains_key(k) && extended[k] == current[k],
    ensures
        integrity_holds(originals, extended),
{
    assert forall|k: Seq<char>| #[trigger] originals.contains_key(k) implies extended.contains_key(
        k,
    ) && extended[k] == originals[k] by {
        assert(current.contains_key(k));
    }
}

/// Law: a test file that was deleted, or whose fingerprint changed, breaks
/// integrity.
pub proof fn lemma_integrity_detects_tampering(
    originals: Map<Seq<char>, u64>,
    current: Map<Seq<char>, u64>,
    name: Seq<char>,
)
    requires
        originals.contains_key(name),
        !current.contains_key(name) || current[name] != originals[name],
    ensures
        !integrity_holds(originals, current),
{
}

/// Law: the same bytes read twice give the same fingerprints, so rereading
/// an untouched test directory keeps integrity.
pub proof fn lemma_same_files_same_hashes(files: Seq<(String, Vec<u8>)>)
    ensures
        integrity_holds(hashes_of(files), hashes_of(files)),
{
}

} // verus!
