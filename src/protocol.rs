//! The submission protocol: timestamps, project keys, metric types, units, samples,
//! and the textual shape of metric names and tag keys.
use vstd::prelude::*;
use vstd::string::StringSliceAdditionalSpecFns;
use vstd::utf8::encode_utf8;

use crate::tags::Tags;

verus! {

/// Seconds since the UNIX epoch.
#[derive(Clone, Copy, Debug, PartialEq, Eq, Structural, PartialOrd, Ord, Hash)]
pub struct UnixTimestamp {
    pub secs: u64,
}

impl UnixTimestamp {
    /// The timestamp `secs` seconds after the epoch.
    pub fn from_secs(secs: u64) -> (r: Self)
        ensures
            r.secs == secs,
    {
        UnixTimestamp { secs }
    }

    /// Seconds since the epoch.
    pub fn as_secs(&self) -> (r: u64)
        ensures
            r == self.secs,
    {
        self.secs
    }
}

/// Byte length of a project key.
pub const PROJECT_KEY_LEN: usize = 32;

/// The identifier of the tenant that owns a sample: 32 ASCII characters, compared by content.
#[derive(Clone, Debug)]
pub struct ProjectKey {
    key: String,
}

impl View for ProjectKey {
    type V = Seq<char>;

    closed spec fn view(&self) -> Seq<char> {
        self.key@
    }
}

impl ProjectKey {
    /// Parses a project key: exactly 32 ASCII characters.
    pub fn parse(s: &str) -> (r: Option<Self>)
        ensures
            r.is_some() <==> (s@.len() == PROJECT_KEY_LEN && is_ascii_chars(s@)),
            r matches Some(k) ==> k@ == s@,
    {
        if s.is_ascii() {
            proof {
                vstd::string::is_ascii_spec_bytes(s);
            }
            assert(s.spec_bytes().len() == s@.len());
            if s.as_bytes().len() == PROJECT_KEY_LEN {
                return Some(ProjectKey { key: s.to_owned() });
            }
        }
        None
    }

    /// The key as text.
    pub fn as_str(&self) -> (r: &str)
        ensures
            r@ == self@,
    {
        self.key.as_str()
    }

    /// The key's bytes.
    pub fn as_bytes(&self) -> (r: &[u8])
        ensures
            r@ == encode_utf8(self@),
    {
        self.key.as_str().as_bytes()
    }

    /// Two keys are the same project when their text is the same.
    pub fn same(&self, other: &ProjectKey) -> (r: bool)
        ensures
            r == (self@ == other@),
    {
        self.key == other.key
    }

    /// A copy of this key.
    pub fn duplicate(&self) -> (r: ProjectKey)
        ensures
            r@ == self@,
    {
        ProjectKey { key: self.key.clone() }
    }
}

/// Whether all characters are ASCII.
pub open spec fn is_ascii_chars(s: Seq<char>) -> bool {
    vstd::utf8::is_ascii_chars(s)
}

/// The four kinds of aggregation.
#[derive(Clone, Copy, Debug, PartialEq, Eq, Structural, Hash)]
pub enum MetricType {
    Counter,
    Distribution,
    UniqueSet,
    Gauge,
}

impl MetricType {
    /// The one-letter code of the type in the wire format.
    pub fn as_str(&self) -> (r: &'static str) {
        match self {
            MetricType::Counter => "c",
            MetricType::Distribution => "d",
            MetricType::UniqueSet => "s",
            MetricType::Gauge => "g",
        }
    }
}

/// The unit of a metric: part of its identity, never converted.
#[derive(Clone, Debug)]
pub enum MetricUnit {
    Unitless,
    Named(String),
}

impl View for MetricUnit {
    type V = Option<Seq<char>>;

    open spec fn view(&self) -> Option<Seq<char>> {
        match self {
            MetricUnit::Unitless => None,
            MetricUnit::Named(s) => Some(s@),
        }
    }
}

impl MetricUnit {
    /// Whether no unit is given.
    pub fn is_none(&self) -> (r: bool)
        ensures
            r == (self@ is None),
    {
        match self {
            MetricUnit::Unitless => true,
            MetricUnit::Named(_) => false,
        }
    }

    /// Whether two units are the same token.
    pub fn same(&self, other: &MetricUnit) -> (r: bool)
        ensures
            r == (self@ == other@),
    {
        match (self, other) {
            (MetricUnit::Unitless, MetricUnit::Unitless) => true,
            (MetricUnit::Named(a), MetricUnit::Named(b)) => *a == *b,
            _ => false,
        }
    }

    /// A copy of this unit.
    pub fn duplicate(&self) -> (r: MetricUnit)
        ensures
            r@ == self@,
    {
        match self {
            MetricUnit::Unitless => MetricUnit::Unitless,
            MetricUnit::Named(s) => MetricUnit::Named(s.clone()),
        }
    }
}

/// Type of a counter increment.
pub type CounterType = i64;

/// Type of a distribution sample.
pub type DistributionType = i64;

/// Type of a set member: already hashed by the submitter.
pub type SetType = u32;

/// The value of a single sample.
#[derive(Clone, Copy, Debug, PartialEq, Eq, Structural)]
pub enum MetricValue {
    Counter(CounterType),
    Distribution(DistributionType),
    UniqueSet(SetType),
    Gauge(crate::gauge::GaugeType),
}

impl MetricValue {
    pub open spec fn spec_ty(&self) -> MetricType {
        match self {
            MetricValue::Counter(_) => MetricType::Counter,
            MetricValue::Distribution(_) => MetricType::Distribution,
            MetricValue::UniqueSet(_) => MetricType::UniqueSet,
            MetricValue::Gauge(_) => MetricType::Gauge,
        }
    }

    /// The type of this sample.
    pub fn ty(&self) -> (r: MetricType)
        ensures
            r == self.spec_ty(),
    {
        match self {
            MetricValue::Counter(_) => MetricType::Counter,
            MetricValue::Distribution(_) => MetricType::Distribution,
            MetricValue::UniqueSet(_) => MetricType::UniqueSet,
            MetricValue::Gauge(_) => MetricType::Gauge,
        }
    }
}

/// A single metric sample as submitted.
#[derive(Clone, Debug)]
pub struct Metric {
    pub name: String,
    pub unit: MetricUnit,
    pub value: MetricValue,
    pub timestamp: UnixTimestamp,
    pub tags: Tags,
}

/// Classes of bytes that names and tag keys are made of.
#[derive(Clone, Copy, Debug, PartialEq, Eq, Structural)]
pub enum ByteClass {
    /// ASCII letters.
    Alpha,
    /// ASCII letters, digits, and `.`, `_`, `-`, `/`.
    Path,
    /// ASCII letters, digits and `_`.
    Word,
}

pub open spec fn is_alpha(c: u8) -> bool {
    (65 <= c <= 90) || (97 <= c <= 122)
}

pub open spec fn is_alnum(c: u8) -> bool {
    is_alpha(c) || (48 <= c <= 57)
}

pub open spec fn in_class(c: u8, k: ByteClass) -> bool {
    match k {
        ByteClass::Alpha => is_alpha(c),
        ByteClass::Path => is_alnum(c) || c == 46 || c == 95 || c == 45 || c == 47,
        ByteClass::Word => is_alnum(c) || c == 95,
    }
}

/// All bytes of `b` in `[lo, hi)` are of class `k`.
pub open spec fn all_in_class(b: Seq<u8>, lo: int, hi: int, k: ByteClass) -> bool {
    forall|i: int| lo <= i < hi ==> #[trigger] in_class(b[i], k)
}

fn byte_in_class(c: u8, k: ByteClass) -> (r: bool)
    ensures
        r == in_class(c, k),
{
    let alpha = (65 <= c && c <= 90) || (97 <= c && c <= 122);
    let alnum = alpha || (48 <= c && c <= 57);
    match k {
        ByteClass::Alpha => alpha,
        ByteClass::Path => alnum || c == 46 || c == 95 || c == 45 || c == 47,
        ByteClass::Word => alnum || c == 95,
    }
}

/// The end of the longest run of bytes of class `k` that starts at `start`.
fn span(b: &[u8], start: usize, k: ByteClass) -> (end: usize)
    requires
        start <= b@.len(),
    ensures
        start <= end <= b@.len(),
        all_in_class(b@, start as int, end as int, k),
        end < b@.len() ==> !in_class(b@[end as int], k),
{
    let mut i = start;
    while i < b.len()
        invariant
            start <= i <= b@.len(),
            all_in_class(b@, start as int, i as int, k),
        decreases b@.len() - i,
    {
        if !byte_in_class(b[i], k) {
            return i;
        }
        i = i + 1;
    }
    i
}

/// A unit suffix: one or more word bytes.
pub open spec fn valid_unit_bytes(u: Seq<u8>) -> bool {
    u.len() >= 1 && all_in_class(u, 0, u.len() as int, ByteClass::Word)
}

/// `r[1..a]` are path bytes and the rest is empty or `@` and a unit.
pub open spec fn path_split(r: Seq<u8>, a: int) -> bool {
    &&& 1 <= a <= r.len()
    &&& all_in_class(r, 1, a, ByteClass::Path)
    &&& (a == r.len() || (r[a] == 64 && valid_unit_bytes(r.subrange(a + 1, r.len() as int))))
}

/// A path: a letter, then path bytes, then optionally `@` and a unit.
pub open spec fn valid_path_bytes(r: Seq<u8>) -> bool {
    &&& r.len() >= 1
    &&& is_alpha(r[0])
    &&& exists|a: int| path_split(r, a)
}

/// `b[..p]` is a prefix of letters, `b[p]` is `:` and a path follows.
pub open spec fn mri_split(b: Seq<u8>, p: int) -> bool {
    &&& 1 <= p < b.len()
    &&& b[p] == 58
    &&& all_in_class(b, 0, p, ByteClass::Alpha)
    &&& valid_path_bytes(b.subrange(p + 1, b.len() as int))
}

/// The shape of a metric resource identifier: a type prefix of letters, `:`, and a path.
pub open spec fn valid_mri_bytes(b: Seq<u8>) -> bool {
    exists|p: int| mri_split(b, p)
}

/// Whether a metric name has the shape of a metric resource identifier.
pub open spec fn is_valid_mri(name: Seq<char>) -> bool {
    valid_mri_bytes(encode_utf8(name))
}

/// A tag key: a letter, then path bytes.
pub open spec fn valid_tag_key_bytes(b: Seq<u8>) -> bool {
    b.len() >= 1 && is_alpha(b[0]) && all_in_class(b, 1, b.len() as int, ByteClass::Path)
}

/// Whether a tag key is made of acceptable characters.
pub open spec fn is_valid_tag_key(key: Seq<char>) -> bool {
    valid_tag_key_bytes(encode_utf8(key))
}

fn check_path(b: &[u8], start: usize) -> (r: bool)
    requires
        start <= b@.len(),
    ensures
        r == valid_path_bytes(b@.subrange(start as int, b@.len() as int)),
{
    let ghost r = b@.subrange(start as int, b@.len() as int);
    if start >= b.len() || !byte_in_class(b[start], ByteClass::Alpha) {
        return false;
    }
    assert(r[0] == b@[start as int]);
    let a = span(b, start + 1, ByteClass::Path);
    let ghost ar = (a - start) as int;
    assert(all_in_class(r, 1, ar, ByteClass::Path)) by {
        assert forall|i: int| 1 <= i < ar implies #[trigger] in_class(r[i], ByteClass::Path) by {
            assert(r[i] == b@[start + i]);
        }
    }
    // any split point must be the end of the run
    assert(forall|w: int| path_split(r, w) ==> w == ar) by {
        assert forall|w: int| path_split(r, w) implies w == ar by {
            if w < ar {
                assert(r[w] == b@[start + w]);
                assert(in_class(b@[start + w], ByteClass::Path));
            } else if w > ar {
                assert(in_class(r[ar], ByteClass::Path));
                assert(r[ar] == b@[a as int]);
            }
        }
    }
    if a == b.len() {
        assert(path_split(r, ar));
        return true;
    }
    assert(r[ar] == b@[a as int]);
    if b[a] != 64 {
        return false;
    }
    let e = span(b, a + 1, ByteClass::Word);
    let ok = e == b.len() && e > a + 1;
    let ghost u = b@.subrange(a + 1, b@.len() as int);
    assert(r.subrange(ar + 1, r.len() as int) =~= u);
    if ok {
        assert(all_in_class(u, 0, u.len() as int, ByteClass::Word)) by {
            assert forall|i: int| 0 <= i < u.len() implies #[trigger] in_class(u[i], ByteClass::Word) by {
                assert(u[i] == b@[a + 1 + i]);
            }
        }
        assert(path_split(r, ar));
    } else {
        assert(!valid_unit_bytes(u)) by {
            if e < b.len() {
                assert(u[e - a - 1] == b@[e as int]);
            }
        }
    }
    ok
}

/// Checks that a metric name has the shape of a metric resource identifier.
pub fn valid_mri(name: &str) -> (r: bool)
    ensures
        r == is_valid_mri(name@),
{
    let b = name.as_bytes();
    let p = span(b, 0, ByteClass::Alpha);
    // any split point must be the end of the run of letters
    assert(forall|w: int| mri_split(b@, w) ==> w == p) by {
        assert forall|w: int| mri_split(b@, w) implies w == p by {
            if w < p {
                assert(in_class(b@[w], ByteClass::Alpha));
            } else if w > p {
                assert(in_class(b@[p as int], ByteClass::Alpha));
            }
        }
    }
    if p == 0 || p >= b.len() || b[p] != 58 {
        return false;
    }
    let ok = check_path(b, p + 1);
    if ok {
        assert(mri_split(b@, p as int));
    }
    ok
}

/// Checks that a tag key is made of acceptable characters.
pub fn valid_tag_key(key: &str) -> (r: bool)
    ensures
        r == is_valid_tag_key(key@),
{
    let b = key.as_bytes();
    if b.len() == 0 || !byte_in_class(b[0], ByteClass::Alpha) {
        return false;
    }
    let e = span(b, 1, ByteClass::Path);
    if e < b.len() {
        assert(!valid_tag_key_bytes(b@)) by {
            assert(!in_class(b@[e as int], ByteClass::Path));
        }
    }
    e == b.len()
}

/// The text with every NUL character removed.
pub open spec fn without_nul(s: Seq<char>) -> Seq<char> {
    s.filter(|c: char| c != '\0')
}

/// Relies on `str::replace`: every occurrence of the pattern is replaced, here by nothing,
/// and the other characters are kept in order.
#[verifier::external_body]
fn remove_nul(s: &str) -> (r: String)
    ensures
        r@ == without_nul(s@),
{
    s.replace('\0', "")
}

/// Normalizes a tag value in place: embedded NUL characters are stripped.
pub fn validate_tag_value(value: &mut String)
    ensures
        final(value)@ == without_nul(old(value)@),
{
    let r = remove_nul(value.as_str());
    *value = r;
}

} // verus!
