//! Tag sets: a mapping from tag key to tag value, kept sorted by the key's bytes so that
//! equal mappings have equal representations and iteration is deterministic.
use vstd::prelude::*;
use vstd::utf8::encode_utf8;

verus! {

/// Byte-wise lexicographic order.
pub open spec fn bytes_lt(a: Seq<u8>, b: Seq<u8>) -> bool
    decreases a.len(),
{
    if a.len() == 0 {
        b.len() > 0
    } else if b.len() == 0 {
        false
    } else if a[0] != b[0] {
        a[0] < b[0]
    } else {
        bytes_lt(a.drop_first(), b.drop_first())
    }
}

pub proof fn lemma_bytes_lt_transitive(a: Seq<u8>, b: Seq<u8>, c: Seq<u8>)
    requires
        bytes_lt(a, b),
        bytes_lt(b, c),
    ensures
        bytes_lt(a, c),
    decreases a.len(),
{
    if a.len() > 0 && a[0] == b[0] && b[0] == c[0] {
        lemma_bytes_lt_transitive(a.drop_first(), b.drop_first(), c.drop_first());
    }
}

pub proof fn lemma_bytes_lt_irreflexive(a: Seq<u8>)
    ensures
        !bytes_lt(a, a),
    decreases a.len(),
{
    if a.len() > 0 {
        lemma_bytes_lt_irreflexive(a.drop_first());
    }
}

/// Compares two byte strings: `-1` when `a` sorts first, `0` when equal, `1` otherwise.
pub fn compare_bytes(a: &[u8], b: &[u8]) -> (r: i8)
    ensures
        r == -1 <==> bytes_lt(a@, b@),
        r == 0 <==> a@ == b@,
        r == 1 <==> bytes_lt(b@, a@),
        r == -1 || r == 0 || r == 1,
{
    let mut i: usize = 0;
    assert(a@.skip(0) =~= a@);
    assert(b@.skip(0) =~= b@);
    while i < a.len() && i < b.len()
        invariant
            i <= a@.len(),
            i <= b@.len(),
            a@.take(i as int) == b@.take(i as int),
            bytes_lt(a@, b@) == bytes_lt(a@.skip(i as int), b@.skip(i as int)),
            bytes_lt(b@, a@) == bytes_lt(b@.skip(i as int), a@.skip(i as int)),
        decreases a@.len() - i,
    {
        assert(a@.skip(i as int)[0] == a@[i as int]);
        assert(b@.skip(i as int)[0] == b@[i as int]);
        if a[i] != b[i] {
            if a[i] < b[i] {
                return -1;
            } else {
                return 1;
            }
        }
        assert(a@.skip(i as int).drop_first() =~= a@.skip(i + 1));
        assert(b@.skip(i as int).drop_first() =~= b@.skip(i + 1));
        assert(a@.take(i + 1) =~= a@.take(i as int).push(a@[i as int]));
        assert(b@.take(i + 1) =~= b@.take(i as int).push(b@[i as int]));
        i = i + 1;
    }
    if i == a.len() && i == b.len() {
        assert(a@ =~= a@.take(i as int));
        assert(b@ =~= b@.take(i as int));
        proof {
            lemma_bytes_lt_irreflexive(a@);
        }
        0
    } else if i == a.len() {
        assert(a@.skip(i as int).len() == 0);
        -1
    } else {
        assert(b@.skip(i as int).len() == 0);
        1
    }
}

/// Whether two texts are equal, decided on their bytes.
pub fn same_text(a: &str, b: &str) -> (r: bool)
    ensures
        r == (a@ == b@),
{
    let c = compare_bytes(a.as_bytes(), b.as_bytes());
    proof {
        vstd::utf8::encode_utf8_decode_utf8(a@);
        vstd::utf8::encode_utf8_decode_utf8(b@);
        if c != 0 && a@ == b@ {
            lemma_bytes_lt_irreflexive(encode_utf8(a@));
        }
    }
    c == 0
}

/// The bytes of a text.
pub open spec fn text_bytes(s: Seq<char>) -> Seq<u8> {
    encode_utf8(s)
}

/// One tag: key and value.
pub type TagEntry = (Seq<char>, Seq<char>);

/// Keys sorted strictly ascending by their bytes.
pub open spec fn sorted_keys(s: Seq<TagEntry>) -> bool {
    forall|i: int, j: int|
        0 <= i < j < s.len() ==> bytes_lt(text_bytes(#[trigger] s[i].0), text_bytes(#[trigger] s[j].0))
}

/// The value stored under `k`, if any.
pub open spec fn lookup(s: Seq<TagEntry>, k: Seq<char>) -> Option<Seq<char>> {
    if exists|i: int| has_key_at(s, i, k) {
        Some(s[choose|i: int| has_key_at(s, i, k)].1)
    } else {
        None
    }
}

/// Entry `i` exists and has key `k`.
pub open spec fn has_key_at(s: Seq<TagEntry>, i: int, k: Seq<char>) -> bool {
    0 <= i < s.len() && s[i].0 == k
}

/// A sorted list has each key once.
pub proof fn lemma_sorted_unique(s: Seq<TagEntry>, i: int, j: int)
    requires
        sorted_keys(s),
        0 <= i < s.len(),
        0 <= j < s.len(),
        s[i].0 == s[j].0,
    ensures
        i == j,
{
    if i < j {
        lemma_bytes_lt_irreflexive(text_bytes(s[i].0));
    } else if j < i {
        lemma_bytes_lt_irreflexive(text_bytes(s[i].0));
    }
}

/// In a sorted list, the value under the key of entry `i` is that entry's value.
pub proof fn lemma_lookup_at(s: Seq<TagEntry>, i: int)
    requires
        sorted_keys(s),
        0 <= i < s.len(),
    ensures
        lookup(s, s[i].0) == Some(s[i].1),
{
    let k = s[i].0;
    assert(has_key_at(s, i, k));
    let c = choose|j: int| has_key_at(s, j, k);
    lemma_sorted_unique(s, i, c);
}

/// A mapping from tag key to tag value.
#[derive(Clone, Debug)]
pub struct Tags {
    entries: Vec<(String, String)>,
}

/// The logical content of a list of string pairs.
pub open spec fn entries_view(v: Seq<(String, String)>) -> Seq<TagEntry> {
    v.map_values(|e: (String, String)| (e.0@, e.1@))
}

impl View for Tags {
    type V = Seq<TagEntry>;

    closed spec fn view(&self) -> Seq<TagEntry> {
        entries_view(self.entries@)
    }
}

impl Tags {
    /// The entries are sorted by key, each key once.
    pub open spec fn wf(&self) -> bool {
        sorted_keys(self@)
    }

    /// The empty mapping.
    pub fn new() -> (r: Self)
        ensures
            r@.len() == 0,
            r.wf(),
    {
        Tags { entries: Vec::new() }
    }

    /// Number of tags.
    pub fn len(&self) -> (r: usize)
        ensures
            r == self@.len(),
    {
        self.entries.len()
    }

    /// Whether there are no tags.
    pub fn is_empty(&self) -> (r: bool)
        ensures
            r == (self@.len() == 0),
    {
        self.entries.len() == 0
    }

    /// The tags in ascending key order.
    pub fn entries(&self) -> (r: &Vec<(String, String)>)
        ensures
            entries_view(r@) == self@,
    {
        &self.entries
    }

    /// The value stored under `key`.
    pub fn get(&self, key: &str) -> (r: Option<&String>)
        requires
            self.wf(),
        ensures
            r matches Some(v) ==> lookup(self@, key@) == Some(v@),
            r is None ==> lookup(self@, key@) is None,
    {
        let mut i: usize = 0;
        while i < self.entries.len()
            invariant
                i <= self@.len(),
                self.wf(),
                forall|j: int| 0 <= j < i ==> (#[trigger] self@[j]).0 != key@,
            decreases self@.len() - i,
        {
            assert(self@[i as int] == (self.entries@[i as int].0@, self.entries@[i as int].1@));
            assert(has_key_at(self@, i as int, self@[i as int].0));
            if same_text(self.entries[i].0.as_str(), key) {
                proof {
                    lemma_lookup_at(self@, i as int);
                }
                return Some(&self.entries[i].1);
            }
            i = i + 1;
        }
        None
    }

    /// Stores `value` under `key`, replacing a previous value of that key.
    pub fn insert(&mut self, key: String, value: String)
        requires
            old(self).wf(),
        ensures
            final(self).wf(),
            lookup(final(self)@, key@) == Some(value@),
            forall|k: Seq<char>| k != key@ ==> lookup(final(self)@, k) == lookup(old(self)@, k),
    {
        let ghost old_view = self@;
        let ghost kb = text_bytes(key@);
        let kbytes = key.as_str().as_bytes();
        let mut out: Vec<(String, String)> = Vec::new();
        let mut i: usize = 0;
        // copy the entries that sort before the key
        while i < self.entries.len()
            invariant
                i <= old_view.len(),
                self@ == old_view,
                sorted_keys(old_view),
                kbytes@ == kb,
                entries_view(out@) == old_view.take(i as int),
                forall|j: int| 0 <= j < i ==> bytes_lt(text_bytes(#[trigger] old_view[j].0), kb),
            ensures
                i <= old_view.len(),
                entries_view(out@) == old_view.take(i as int),
                forall|j: int| 0 <= j < i ==> bytes_lt(text_bytes(#[trigger] old_view[j].0), kb),
                i == old_view.len() || !bytes_lt(text_bytes(old_view[i as int].0), kb),
            decreases old_view.len() - i,
        {
            assert(old_view[i as int] == (self.entries@[i as int].0@, self.entries@[i as int].1@));
            let c = compare_bytes(self.entries[i].0.as_str().as_bytes(), kbytes);
            if c != -1 {
                break;
            }
            let e = (self.entries[i].0.clone(), self.entries[i].1.clone());
            let ghost before = out@;
            out.push(e);
            assert(out@ =~= before.push(e));
            assert(entries_view(out@) =~= entries_view(before).push((e.0@, e.1@)));
            assert(entries_view(out@) =~= old_view.take(i + 1));
            i = i + 1;
        }
        let pos = i;
        // skip an entry with the same key
        if i < self.entries.len() {
            assert(old_view[i as int] == (self.entries@[i as int].0@, self.entries@[i as int].1@));
            let c = compare_bytes(self.entries[i].0.as_str().as_bytes(), kbytes);
            if c == 0 {
                proof {
                    vstd::utf8::encode_utf8_decode_utf8(old_view[i as int].0);
                    vstd::utf8::encode_utf8_decode_utf8(key@);
                }
                i = i + 1;
            } else {
                assert(bytes_lt(kb, text_bytes(old_view[i as int].0)));
            }
        }
        let ghost skip: int = i as int;
        
        let ghost before = out@;
        let ghost kv = (key@, value@);
        out.push((key, value));
        assert(entries_view(out@) =~= entries_view(before).push(kv));
        assert(entries_view(out@) =~= old_view.take(pos as int).push(kv));
        while i < self.entries.len()
            invariant
                pos <= skip <= i <= old_view.len(),
                skip == pos || skip == pos + 1,
                self@ == old_view,
                sorted_keys(old_view),
                entries_view(out@) == old_view.take(pos as int).push((key@, value@)) + old_view.subrange(skip, i as int),
            decreases old_view.len() - i,
        {
            assert(old_view[i as int] == (self.entries@[i as int].0@, self.entries@[i as int].1@));
            let e = (self.entries[i].0.clone(), self.entries[i].1.clone());
            let ghost before = out@;
            out.push(e);
            assert(out@ =~= before.push(e));
            assert(entries_view(out@) =~= entries_view(before).push((e.0@, e.1@)));
            assert(entries_view(out@) =~= old_view.take(pos as int).push((key@, value@)) + old_view.subrange(skip, i + 1));
            i = i + 1;
        }
        let ghost nv = entries_view(out@);
        assert(nv == old_view.take(pos as int).push((key@, value@)) + old_view.subrange(skip, old_view.len() as int));
        assert(nv.len() == pos + 1 + (old_view.len() - skip));
        assert(forall|j: int| 0 <= j < pos ==> #[trigger] nv[j] == old_view[j]);
        assert(nv[pos as int] == (key@, value@));
        assert(forall|j: int| pos < j < nv.len() ==> #[trigger] nv[j] == old_view[j - pos - 1 + skip]);
        proof {
            // entries from `skip` on sort after the key
            assert forall|j: int| skip <= j < old_view.len() implies bytes_lt(kb, text_bytes(#[trigger] old_view[j].0)) by {
                if skip == pos + 1 {
                    vstd::utf8::encode_utf8_decode_utf8(old_view[pos as int].0);
                    assert(old_view[pos as int].0 == key@);
                    if j > pos {
                        assert(bytes_lt(text_bytes(old_view[pos as int].0), text_bytes(old_view[j].0)));
                    }
                } else {
                    assert(bytes_lt(kb, text_bytes(old_view[pos as int].0)));
                    if j > pos {
                        lemma_bytes_lt_transitive(kb, text_bytes(old_view[pos as int].0), text_bytes(old_view[j].0));
                    }
                }
            }
            assert forall|a: int, b: int| 0 <= a < b < nv.len() implies bytes_lt(text_bytes(#[trigger] nv[a].0), text_bytes(#[trigger] nv[b].0)) by {
                if b < pos {
                } else if b == pos {
                } else if a < pos {
                    lemma_bytes_lt_transitive(text_bytes(nv[a].0), kb, text_bytes(nv[b].0));
                } else if a == pos {
                } else {
                    assert(nv[a] == old_view[a - pos - 1 + skip]);
                    assert(nv[b] == old_view[b - pos - 1 + skip]);
                }
            }
            lemma_lookup_at(nv, pos as int);
            assert forall|k: Seq<char>| k != key@ implies lookup(nv, k) == lookup(old_view, k) by {
                if exists|i: int| has_key_at(old_view, i, k) {
                    let i = choose|i: int| has_key_at(old_view, i, k);
                    lemma_lookup_at(old_view, i);
                    if i < pos {
                        lemma_lookup_at(nv, i);
                    } else {
                        if skip == pos + 1 && i == pos {
                            vstd::utf8::encode_utf8_decode_utf8(old_view[pos as int].0);
                            vstd::utf8::encode_utf8_decode_utf8(key@);
                        }
                        assert(i >= skip);
                        let n = i - skip + pos + 1;
                        assert(nv[n] == old_view[i]);
                        lemma_lookup_at(nv, n);
                    }
                } else {
                    if exists|n: int| has_key_at(nv, n, k) {
                        let n = choose|n: int| has_key_at(nv, n, k);
                        if n < pos {
                            assert(has_key_at(old_view, n, k));
                        } else if n > pos {
                            assert(has_key_at(old_view, n - pos - 1 + skip, k));
                        }
                    }
                }
            }
        }
        self.entries = out;
    }
}


/// Byte length of a text.
pub open spec fn text_len(s: Seq<char>) -> nat {
    text_bytes(s).len()
}

/// A tag is kept when its key and value fit their limits and its key is well formed.
pub open spec fn keep_tag(e: TagEntry, max_key_len: usize, max_value_len: usize) -> bool {
    &&& text_len(e.0) <= max_key_len
    &&& text_len(e.1) <= max_value_len
    &&& crate::protocol::is_valid_tag_key(e.0)
}

/// The tags that are kept, with NUL characters stripped from their values.
pub open spec fn validated_entries(s: Seq<TagEntry>, max_key_len: usize, max_value_len: usize) -> Seq<TagEntry>
    decreases s.len(),
{
    if s.len() == 0 {
        Seq::empty()
    } else {
        let rest = validated_entries(s.drop_last(), max_key_len, max_value_len);
        if keep_tag(s.last(), max_key_len, max_value_len) {
            rest.push((s.last().0, crate::protocol::without_nul(s.last().1)))
        } else {
            rest
        }
    }
}

/// Sum of the byte lengths of all keys and values.
pub open spec fn tags_cost(s: Seq<TagEntry>) -> nat
    decreases s.len(),
{
    if s.len() == 0 {
        0
    } else {
        tags_cost(s.drop_last()) + text_len(s.last().0) + text_len(s.last().1)
    }
}

/// Byte length of a string.
pub fn byte_len(s: &String) -> (r: usize)
    ensures
        r == text_len(s@),
{
    s.as_str().as_bytes().len()
}

impl Tags {
    /// The tags that fit the length limits and have a well-formed key, with their values
    /// normalized.
    pub fn validated(&self, max_key_len: usize, max_value_len: usize) -> (r: Tags)
        requires
            self.wf(),
        ensures
            r.wf(),
            r@ == validated_entries(self@, max_key_len, max_value_len),
    {
        let ghost s = self@;
        let mut out: Vec<(String, String)> = Vec::new();
        let ghost mut origin: Seq<int> = Seq::empty();
        let mut i: usize = 0;
        assert(s.take(0) =~= Seq::<TagEntry>::empty());
        while i < self.entries.len()
            invariant
                s == self@,
                sorted_keys(s),
                i <= s.len(),
                entries_view(out@) == validated_entries(s.take(i as int), max_key_len, max_value_len),
                origin.len() == out@.len(),
                forall|m: int| 0 <= m < origin.len() ==> 0 <= #[trigger] origin[m] < i,
                forall|m: int, n: int| 0 <= m < n < origin.len() ==> #[trigger] origin[m] < #[trigger] origin[n],
                forall|m: int| 0 <= m < origin.len() ==> (#[trigger] entries_view(out@)[m]).0 == s[origin[m]].0,
            decreases s.len() - i,
        {
            assert(s[i as int] == (self.entries@[i as int].0@, self.entries@[i as int].1@));
            assert(s.take(i + 1).drop_last() =~= s.take(i as int));
            let key = &self.entries[i].0;
            let value = &self.entries[i].1;
            let keep = byte_len(key) <= max_key_len && byte_len(value) <= max_value_len
                && crate::protocol::valid_tag_key(key.as_str());
            if keep {
                let mut v = value.clone();
                crate::protocol::validate_tag_value(&mut v);
                let ghost before = out@;
                out.push((key.clone(), v));
                proof {
                    assert(out@ =~= before.push(out@.last()));
                    assert(entries_view(out@) =~= entries_view(before).push((s[i as int].0, crate::protocol::without_nul(s[i as int].1))));
                    origin = origin.push(i as int);
                }
            }
            i = i + 1;
        }
        assert(s.take(s.len() as int) =~= s);
        let r = Tags { entries: out };
        assert(sorted_keys(r@)) by {
            assert forall|a: int, b: int| 0 <= a < b < r@.len() implies bytes_lt(text_bytes(#[trigger] r@[a].0), text_bytes(#[trigger] r@[b].0)) by {
                assert(origin[a] < origin[b]);
            }
        }
        r
    }

    /// The byte lengths of all keys and values, summed; held at `usize::MAX`.
    pub fn cost(&self) -> (r: usize)
        ensures
            r == crate::sat_usize(tags_cost(self@)),
    {
        let ghost s = self@;
        let mut total: usize = 0;
        let mut i: usize = 0;
        assert(s.take(0) =~= Seq::<TagEntry>::empty());
        while i < self.entries.len()
            invariant
                s == self@,
                i <= s.len(),
                total == crate::sat_usize(tags_cost(s.take(i as int))),
            decreases s.len() - i,
        {
            assert(s[i as int] == (self.entries@[i as int].0@, self.entries@[i as int].1@));
            assert(s.take(i + 1).drop_last() =~= s.take(i as int));
            let k = byte_len(&self.entries[i].0);
            let v = byte_len(&self.entries[i].1);
            total = crate::sat_add_usize(crate::sat_add_usize(total, k), v);
            i = i + 1;
        }
        assert(s.take(s.len() as int) =~= s);
        total
    }

    /// Whether both hold the same tags.
    pub fn same(&self, other: &Tags) -> (r: bool)
        ensures
            r == (self@ == other@),
    {
        if self.entries.len() != other.entries.len() {
            return false;
        }
        let mut i: usize = 0;
        while i < self.entries.len()
            invariant
                i <= self@.len(),
                self@.len() == other@.len(),
                forall|j: int| 0 <= j < i ==> self@[j] == other@[j],
            decreases self@.len() - i,
        {
            assert(self@[i as int] == (self.entries@[i as int].0@, self.entries@[i as int].1@));
            assert(other@[i as int] == (other.entries@[i as int].0@, other.entries@[i as int].1@));
            if !same_text(self.entries[i].0.as_str(), other.entries[i].0.as_str())
                || !same_text(self.entries[i].1.as_str(), other.entries[i].1.as_str()) {
                return false;
            }
            i = i + 1;
        }
        assert(self@ =~= other@);
        true
    }

    /// A copy of these tags.
    pub fn duplicate(&self) -> (r: Tags)
        ensures
            r@ == self@,
    {
        let mut out: Vec<(String, String)> = Vec::new();
        let mut i: usize = 0;
        while i < self.entries.len()
            invariant
                i <= self@.len(),
                entries_view(out@) == self@.take(i as int),
            decreases self@.len() - i,
        {
            assert(self@[i as int] == (self.entries@[i as int].0@, self.entries@[i as int].1@));
            let ghost before = out@;
            let e = (self.entries[i].0.clone(), self.entries[i].1.clone());
            out.push(e);
            assert(out@ =~= before.push(e));
            assert(entries_view(out@) =~= entries_view(before).push((e.0@, e.1@)));
            assert(entries_view(out@) =~= self@.take(i + 1));
            i = i + 1;
        }
        assert(self@.take(self@.len() as int) =~= self@);
        Tags { entries: out }
    }
}

} // verus!
