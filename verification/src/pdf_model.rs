//! The document model: object references, byte ranges, PDF values and
//! dictionaries, findings and their summary.
use vstd::prelude::*;
use vstd::utf8::*;
use crate::value_views::{entry_views, value_views};
use crate::text::{string_views, decimal, decimal_string, owned, push_char, push_str, str_eq};

verus! {

broadcast use vstd::utf8::encode_utf8_decode_utf8, crate::value_views::group_views;

/// An indirect object reference `object generation R`.
#[derive(Clone, Copy, Debug, PartialEq, Eq, Structural, Hash, PartialOrd, Ord)]
pub struct ObjectRef {
    pub object: u32,
    pub generation: u16,
}

impl ObjectRef {
    pub fn new(object: u32, generation: u16) -> (r: Self)
        ensures
            r.object == object,
            r.generation == generation,
    {
        ObjectRef { object, generation }
    }

    /// The text `"{object} {generation} R"`.
    pub open spec fn spec_text(self) -> Seq<char> {
        decimal(self.object as nat) + seq![' '] + decimal(self.generation as nat) + seq![' ', 'R']
    }

    /// Renders the reference as `object generation R`.
    pub fn to_text(&self) -> (s: String)
        ensures
            s@ == self.spec_text(),
    {
        let mut s = decimal_string(self.object as usize);
        push_char(&mut s, ' ');
        let g = decimal_string(self.generation as usize);
        push_str(&mut s, g.as_str());
        push_char(&mut s, ' ');
        push_char(&mut s, 'R');
        s
    }

    /// Strict order on references: by object number, then generation.
    pub open spec fn precedes(self, other: ObjectRef) -> bool {
        self.object < other.object || (self.object == other.object && self.generation < other.generation)
    }

    pub fn less_than(&self, other: &ObjectRef) -> (r: bool)
        ensures
            r == self.precedes(*other),
    {
        self.object < other.object || (self.object == other.object && self.generation < other.generation)
    }
}

/// A half-open range of byte offsets.
#[derive(Clone, Copy, Debug, PartialEq, Eq, Structural)]
pub struct ByteRange {
    pub start: usize,
    pub end: usize,
}

impl ByteRange {
    /// Number of bytes covered; zero when `end` is not after `start`.
    pub fn len(self) -> (n: usize)
        ensures
            n == if self.end >= self.start { (self.end - self.start) as usize } else { 0 },
    {
        self.end.saturating_sub(self.start)
    }
}

#[derive(Clone, Copy, Debug, PartialEq, Eq, Structural)]
pub enum Severity {
    Error,
    Warning,
    Info,
}

impl Severity {
    pub open spec fn spec_label(self) -> Seq<char> {
        match self {
            Severity::Error => seq!['e', 'r', 'r', 'o', 'r'],
            Severity::Warning => seq!['w', 'a', 'r', 'n', 'i', 'n', 'g'],
            Severity::Info => seq!['i', 'n', 'f', 'o'],
        }
    }

    /// The lower-case label `error`, `warning` or `info`.
    pub fn label(self) -> (s: String)
        ensures
            s@ == self.spec_label(),
    {
        let mut s = String::new();
        match self {
            Severity::Error => {
                push_char(&mut s, 'e');
                push_char(&mut s, 'r');
                push_char(&mut s, 'r');
                push_char(&mut s, 'o');
                push_char(&mut s, 'r');
            },
            Severity::Warning => {
                push_char(&mut s, 'w');
                push_char(&mut s, 'a');
                push_char(&mut s, 'r');
                push_char(&mut s, 'n');
                push_char(&mut s, 'i');
                push_char(&mut s, 'n');
                push_char(&mut s, 'g');
            },
            Severity::Info => {
                push_char(&mut s, 'i');
                push_char(&mut s, 'n');
                push_char(&mut s, 'f');
                push_char(&mut s, 'o');
            },
        }
        assert(s@ =~= self.spec_label());
        s
    }
}

/// One diagnostic result.
#[derive(Clone, Debug)]
pub struct Finding {
    pub rule_id: String,
    pub severity: Severity,
    pub message: String,
    pub object: Option<ObjectRef>,
    pub page: Option<u32>,
    pub byte_offset: Option<usize>,
    pub suggested_next_step: String,
}

/// Counts of findings by severity.
#[derive(Clone, Copy, Debug, PartialEq, Eq, Structural)]
pub struct DiagnosticSummary {
    pub errors: usize,
    pub warnings: usize,
    pub info: usize,
}

/// Number of findings in `findings` whose severity is `severity`.
pub open spec fn count_severity(findings: Seq<Finding>, severity: Severity) -> nat
    decreases findings.len(),
{
    if findings.len() == 0 {
        0
    } else {
        count_severity(findings.drop_last(), severity) + if findings.last().severity == severity { 1nat } else { 0nat }
    }
}

/// The three counts split the findings: together they count every finding once.
pub proof fn lemma_severity_counts_sum(findings: Seq<Finding>)
    ensures
        count_severity(findings, Severity::Error) + count_severity(findings, Severity::Warning)
            + count_severity(findings, Severity::Info) == findings.len(),
    decreases findings.len(),
{
    if findings.len() > 0 {
        lemma_severity_counts_sum(findings.drop_last());
    }
}

impl DiagnosticSummary {
    /// Counts the findings of each severity.
    pub fn from_findings(findings: &[Finding]) -> (summary: Self)
        ensures
            summary.errors == count_severity(findings@, Severity::Error),
            summary.warnings == count_severity(findings@, Severity::Warning),
            summary.info == count_severity(findings@, Severity::Info),
    {
        let mut summary = DiagnosticSummary { errors: 0, warnings: 0, info: 0 };
        let mut i: usize = 0;
        while i < findings.len()
            invariant
                i <= findings.len(),
                summary.errors == count_severity(findings@.take(i as int), Severity::Error),
                summary.warnings == count_severity(findings@.take(i as int), Severity::Warning),
                summary.info == count_severity(findings@.take(i as int), Severity::Info),
            decreases findings.len() - i,
        {
            proof {
                let prefix = findings@.take(i + 1);
                assert(prefix.drop_last() =~= findings@.take(i as int));
                lemma_severity_counts_sum(findings@.take(i as int));
            }
            match findings[i].severity {
                Severity::Error => summary.errors = summary.errors + 1,
                Severity::Warning => summary.warnings = summary.warnings + 1,
                Severity::Info => summary.info = summary.info + 1,
            }
            i = i + 1;
        }
        assert(findings@.take(findings.len() as int) =~= findings@);
        summary
    }

    pub fn has_errors(&self) -> (r: bool)
        ensures
            r == (self.errors > 0),
    {
        self.errors > 0
    }
}


/// Strict lexicographic order on byte strings (a proper prefix comes first).
pub open spec fn bytes_lt(a: Seq<u8>, b: Seq<u8>) -> bool
    decreases a.len(),
{
    if a.len() == 0 {
        b.len() > 0
    } else if b.len() == 0 {
        false
    } else if a[0] != b[0] {
        a[0] < b[0]
    } else {
        bytes_lt(a.drop_first(), b.drop_first())
    }
}

pub proof fn lemma_bytes_lt_irreflexive(a: Seq<u8>)
    ensures
        !bytes_lt(a, a),
    decreases a.len(),
{
    if a.len() > 0 {
        lemma_bytes_lt_irreflexive(a.drop_first());
    }
}

pub proof fn lemma_bytes_lt_transitive(a: Seq<u8>, b: Seq<u8>, c: Seq<u8>)
    requires
        bytes_lt(a, b),
        bytes_lt(b, c),
    ensures
        bytes_lt(a, c),
    decreases a.len(),
{
    if a.len() > 0 && b.len() > 0 && c.len() > 0 {
        if a[0] == b[0] && b[0] == c[0] {
            lemma_bytes_lt_transitive(a.drop_first(), b.drop_first(), c.drop_first());
        }
    }
}

pub proof fn lemma_bytes_lt_total(a: Seq<u8>, b: Seq<u8>)
    ensures
        a == b || bytes_lt(a, b) || bytes_lt(b, a),
    decreases a.len(),
{
    if a.len() > 0 && b.len() > 0 && a[0] == b[0] {
        lemma_bytes_lt_total(a.drop_first(), b.drop_first());
        if a.drop_first() == b.drop_first() {
            assert(a =~= seq![a[0]] + a.drop_first());
            assert(b =~= seq![b[0]] + b.drop_first());
        }
    } else if a.len() == 0 && b.len() == 0 {
        assert(a =~= b);
    }
}

/// Dictionary keys are ordered as Rust orders strings: by their UTF-8 bytes.
pub open spec fn key_lt(a: Seq<char>, b: Seq<char>) -> bool {
    bytes_lt(encode_utf8(a), encode_utf8(b))
}

/// Compares two byte strings: -1, 0 or 1 as `a` sorts before, equal to or after `b`.
pub fn compare_bytes(a: &[u8], b: &[u8]) -> (r: i8)
    ensures
        r == 0 <==> a@ == b@,
        r < 0 <==> bytes_lt(a@, b@),
        r > 0 <==> bytes_lt(b@, a@),
{
    let mut i: usize = 0;
    assert(a@.skip(0) =~= a@);
    assert(b@.skip(0) =~= b@);
    while i < a.len() && i < b.len()
        invariant
            i <= a.len(),
            i <= b.len(),
            a@.take(i as int) == b@.take(i as int),
            bytes_lt(a@, b@) == bytes_lt(a@.skip(i as int), b@.skip(i as int)),
            bytes_lt(b@, a@) == bytes_lt(b@.skip(i as int), a@.skip(i as int)),
        decreases a.len() - i,
    {
        assert(a@.skip(i as int)[0] == a@[i as int]);
        assert(b@.skip(i as int)[0] == b@[i as int]);
        if a[i] < b[i] {
            assert(a@ != b@ ==> true);
            assert(a@[i as int] != b@[i as int]);
            return -1;
        }
        if a[i] > b[i] {
            assert(a@[i as int] != b@[i as int]);
            return 1;
        }
        assert(a@.skip(i as int).drop_first() =~= a@.skip(i + 1));
        assert(b@.skip(i as int).drop_first() =~= b@.skip(i + 1));
        assert(a@.take(i + 1) =~= a@.take(i as int).push(a@[i as int]));
        assert(b@.take(i + 1) =~= b@.take(i as int).push(b@[i as int]));
        i = i + 1;
    }
    if a.len() == b.len() {
        assert(a@ =~= a@.take(i as int));
        assert(b@ =~= b@.take(i as int));
        proof { lemma_bytes_lt_irreflexive(a@); }
        0
    } else if a.len() < b.len() {
        assert(a@.skip(i as int).len() == 0);
        assert(b@.skip(i as int).len() > 0);
        -1
    } else {
        assert(b@.skip(i as int).len() == 0);
        assert(a@.skip(i as int).len() > 0);
        1
    }
}

/// The text of a PDF value, with every string by its characters.
pub enum ValueView {
    Null,
    Boolean(bool),
    Number(Seq<char>),
    Name(Seq<char>),
    String(Seq<char>),
    HexString(Seq<char>),
    Array(Seq<ValueView>),
    Dictionary(Seq<(Seq<char>, ValueView)>),
    Reference(ObjectRef),
    Raw(Seq<char>),
}

/// A PDF number as written: optional sign, digits, optional fraction.
#[derive(Debug)]
pub struct PdfNumber {
    pub text: String,
}

/// A PDF object value.
#[derive(Debug)]
pub enum PdfValue {
    Null,
    Boolean(bool),
    Number(PdfNumber),
    Name(String),
    String(String),
    HexString(String),
    Array(Vec<PdfValue>),
    Dictionary(PdfDictionary),
    Reference(ObjectRef),
    Raw(String),
}

/// A PDF dictionary: entries kept sorted by key, each key once.
#[derive(Debug)]
pub struct PdfDictionary {
    pub entries: Vec<(String, PdfValue)>,
}

/// Keys in strictly increasing order.
pub open spec fn keys_sorted(e: Seq<(Seq<char>, ValueView)>) -> bool {
    forall|i: int, j: int| 0 <= i < j < e.len() ==> key_lt(#[trigger] e[i].0, #[trigger] e[j].0)
}

/// The value stored under `key`, if any.
pub open spec fn dict_get(e: Seq<(Seq<char>, ValueView)>, key: Seq<char>) -> Option<ValueView>
    decreases e.len(),
{
    if e.len() == 0 {
        None
    } else if e[0].0 == key {
        Some(e[0].1)
    } else {
        dict_get(e.drop_first(), key)
    }
}

/// The entries after storing `value` under `key`, keeping key order.
pub open spec fn dict_insert(e: Seq<(Seq<char>, ValueView)>, key: Seq<char>, value: ValueView) -> Seq<(Seq<char>, ValueView)>
    decreases e.len(),
{
    if e.len() == 0 {
        seq![(key, value)]
    } else if e[0].0 == key {
        seq![(key, value)] + e.drop_first()
    } else if key_lt(key, e[0].0) {
        seq![(key, value)] + e
    } else {
        seq![e[0]] + dict_insert(e.drop_first(), key, value)
    }
}

impl PdfDictionary {
    pub fn new() -> (d: Self)
        ensures
            d@ == Seq::<(Seq<char>, ValueView)>::empty(),
            keys_sorted(d@),
    {
        let d = PdfDictionary { entries: Vec::new() };
        assert(d@ =~= Seq::<(Seq<char>, ValueView)>::empty());
        d
    }

    pub fn len(&self) -> (n: usize)
        ensures
            n == self@.len(),
    {
        self.entries.len()
    }

    pub fn is_empty(&self) -> (r: bool)
        ensures
            r == (self@.len() == 0),
    {
        self.entries.len() == 0
    }

    /// The key and value of entry `i`, in key order.
    pub fn entry(&self, i: usize) -> (r: (&String, &PdfValue))
        requires
            i < self@.len(),
        ensures
            r.0@ == self@[i as int].0,
            r.1@ == self@[i as int].1,
    {
        (&self.entries[i].0, &self.entries[i].1)
    }

    /// The value stored under `key`.
    pub fn get(&self, key: &str) -> (r: Option<&PdfValue>)
        ensures
            r is Some <==> dict_get(self@, key@) is Some,
            r matches Some(v) ==> dict_get(self@, key@) == Some(v@),
    {
        let mut i: usize = 0;
        assert(self@.skip(0) =~= self@);
        while i < self.entries.len()
            invariant
                i <= self.entries@.len(),
                dict_get(self@, key@) == dict_get(self@.skip(i as int), key@),
            decreases self.entries@.len() - i,
        {
            let ghost rest = self@.skip(i as int);
            assert(rest[0] == (self.entries@[i as int].0@, self.entries@[i as int].1@));
            if str_eq(self.entries[i].0.as_str(), key) {
                return Some(&self.entries[i].1);
            }
            assert(rest.drop_first() =~= self@.skip(i + 1));
            i = i + 1;
        }
        assert(self@.skip(i as int).len() == 0);
        None
    }

    pub fn contains_key(&self, key: &str) -> (r: bool)
        ensures
            r == dict_get(self@, key@) is Some,
    {
        self.get(key).is_some()
    }
}


/// The position of the first entry with this key.
pub open spec fn key_pos(e: Seq<(Seq<char>, ValueView)>, key: Seq<char>) -> Option<int>
    decreases e.len(),
{
    if e.len() == 0 {
        None
    } else if e[0].0 == key {
        Some(0)
    } else {
        match key_pos(e.drop_first(), key) {
            Some(i) => Some(i + 1),
            None => None,
        }
    }
}

/// The entries without the first one stored under `key`.
pub open spec fn dict_remove(e: Seq<(Seq<char>, ValueView)>, key: Seq<char>) -> Seq<(Seq<char>, ValueView)>
    decreases e.len(),
{
    if e.len() == 0 {
        e
    } else if e[0].0 == key {
        e.drop_first()
    } else {
        seq![e[0]] + dict_remove(e.drop_first(), key)
    }
}

proof fn lemma_key_pos_at(e: Seq<(Seq<char>, ValueView)>, key: Seq<char>, i: int)
    requires
        0 <= i <= e.len(),
        forall|j: int| 0 <= j < i ==> #[trigger] e[j].0 != key,
        i == e.len() || e[i].0 == key,
    ensures
        key_pos(e, key) == if i < e.len() { Some(i) } else { None::<int> },
        dict_remove(e, key) == if i < e.len() { e.take(i) + e.skip(i + 1) } else { e },
        i < e.len() ==> dict_get(e, key) == Some(e[i].1),
        i == e.len() ==> dict_get(e, key) is None,
    decreases i,
{
    if i == 0 {
        if e.len() > 0 {
            assert(e.take(0) + e.skip(1) =~= e.drop_first());
        }
    } else {
        let t = e.drop_first();
        assert forall|j: int| 0 <= j < i - 1 implies #[trigger] t[j].0 != key by {
            assert(t[j] == e[j + 1]);
        }
        if i - 1 < t.len() {
            assert(t[i - 1] == e[i]);
        }
        lemma_key_pos_at(t, key, i - 1);
        assert(e[0].0 != key);
        if i < e.len() {
            assert(seq![e[0]] + (t.take(i - 1) + t.skip(i)) =~= e.take(i) + e.skip(i + 1));
        } else {
            assert(seq![e[0]] + t =~= e);
        }
    }
}

/// Removing an entry keeps the others in order.
proof fn lemma_dict_remove_sorted(e: Seq<(Seq<char>, ValueView)>, key: Seq<char>, i: int)
    requires
        keys_sorted(e),
        0 <= i < e.len(),
    ensures
        keys_sorted(e.take(i) + e.skip(i + 1)),
{
    let r = e.take(i) + e.skip(i + 1);
    assert forall|a: int, b: int| 0 <= a < b < r.len() implies key_lt(#[trigger] r[a].0, #[trigger] r[b].0) by {
        let ea = if a < i { a } else { a + 1 };
        let eb = if b < i { b } else { b + 1 };
        assert(r[a] == e[ea]);
        assert(r[b] == e[eb]);
    }
}

impl PdfDictionary {
    /// The position of the entry stored under `key`.
    pub fn key_index(&self, key: &str) -> (r: Option<usize>)
        ensures
            match key_pos(self@, key@) {
                Some(i) => r matches Some(j) && j == i && i < self@.len() && self@[i].0 == key@,
                None => r is None,
            },
            r is Some <==> dict_get(self@, key@) is Some,
            r matches Some(i) ==> dict_get(self@, key@) == Some(self@[i as int].1),
            r matches Some(i) ==> i < self@.len() && self@[i as int].0 == key@,
            r matches Some(i) ==> forall|j: int| 0 <= j < i ==> #[trigger] self@[j].0 != key@,
            r is None ==> forall|j: int| 0 <= j < self@.len() ==> #[trigger] self@[j].0 != key@,
    {
        let mut i: usize = 0;
        while i < self.entries.len()
            invariant
                i <= self.entries@.len(),
                forall|j: int| 0 <= j < i ==> #[trigger] self@[j].0 != key@,
            decreases self.entries@.len() - i,
        {
            proof { crate::value_views::lemma_entry_views(self.entries@); }
            assert(self@[i as int].0 == self.entries@[i as int].0@);
            if str_eq(self.entries[i].0.as_str(), key) {
                proof { lemma_key_pos_at(self@, key@, i as int); }
                return Some(i);
            }
            i = i + 1;
        }
        proof { lemma_key_pos_at(self@, key@, i as int); }
        None
    }

    /// Removes the entry stored under `key`, if there is one.
    pub fn remove(&mut self, key: &str)
        ensures
            final(self)@ == dict_remove(old(self)@, key@),
            keys_sorted(old(self)@) ==> keys_sorted(final(self)@),
    {
        let ghost e = self@;
        match self.key_index(key) {
            Some(i) => {
                proof {
                    lemma_key_pos_at(e, key@, i as int);
                    if keys_sorted(e) {
                        lemma_dict_remove_sorted(e, key@, i as int);
                    }
                }
                let _removed = self.entries.remove(i);
                proof { crate::value_views::lemma_entry_views(self.entries@); }
                assert(self@ =~= e.take(i as int) + e.skip(i + 1));
            },
            None => {
                proof {
                    lemma_key_pos_at(e, key@, e.len() as int);
                }
            },
        }
    }
}

/// Reading a key after storing it gives the stored value; other keys read
/// as before.
pub proof fn lemma_dict_insert_get(e: Seq<(Seq<char>, ValueView)>, key: Seq<char>, value: ValueView, other: Seq<char>)
    ensures
        dict_get(dict_insert(e, key, value), other) == if other == key { Some(value) } else { dict_get(e, other) },
    decreases e.len(),
{
    let n = dict_insert(e, key, value);
    if e.len() == 0 {
        assert(n == seq![(key, value)]);
        assert(n.drop_first() =~= Seq::<(Seq<char>, ValueView)>::empty());
        assert(dict_get(n.drop_first(), other) is None);
        assert(dict_get(n, other) == if n[0].0 == other { Some(n[0].1) } else { dict_get(n.drop_first(), other) });
    } else if e[0].0 == key {
        assert(n == seq![(key, value)] + e.drop_first());
        assert(n.drop_first() =~= e.drop_first());
        assert(dict_get(n, other) == if n[0].0 == other { Some(n[0].1) } else { dict_get(n.drop_first(), other) });
        assert(dict_get(e, other) == if e[0].0 == other { Some(e[0].1) } else { dict_get(e.drop_first(), other) });
    } else if key_lt(key, e[0].0) {
        assert(n == seq![(key, value)] + e);
        assert(n.drop_first() =~= e);
        assert(dict_get(n, other) == if n[0].0 == other { Some(n[0].1) } else { dict_get(n.drop_first(), other) });
    } else {
        let r = dict_insert(e.drop_first(), key, value);
        assert(n == seq![e[0]] + r);
        assert(n.drop_first() =~= r);
        lemma_dict_insert_get(e.drop_first(), key, value, other);
        assert(dict_get(n, other) == if n[0].0 == other { Some(n[0].1) } else { dict_get(n.drop_first(), other) });
        assert(dict_get(e, other) == if e[0].0 == other { Some(e[0].1) } else { dict_get(e.drop_first(), other) });
    }
}

/// `x` sorts before every key of `e`.
pub open spec fn key_below_all(x: Seq<char>, e: Seq<(Seq<char>, ValueView)>) -> bool {
    forall|j: int| 0 <= j < e.len() ==> key_lt(x, #[trigger] e[j].0)
}

proof fn lemma_sorted_cons(x: (Seq<char>, ValueView), t: Seq<(Seq<char>, ValueView)>)
    requires
        keys_sorted(t),
        key_below_all(x.0, t),
    ensures
        keys_sorted(seq![x] + t),
{
    let s = seq![x] + t;
    assert forall|i: int, j: int| 0 <= i < j < s.len() implies key_lt(#[trigger] s[i].0, #[trigger] s[j].0) by {
        if i == 0 {
            assert(s[j] == t[j - 1]);
        } else {
            assert(s[i] == t[i - 1]);
            assert(s[j] == t[j - 1]);
        }
    }
}

pub proof fn lemma_key_lt_trans(a: Seq<char>, b: Seq<char>, c: Seq<char>)
    requires
        key_lt(a, b),
        key_lt(b, c),
    ensures
        key_lt(a, c),
{
    lemma_bytes_lt_transitive(encode_utf8(a), encode_utf8(b), encode_utf8(c));
}

pub proof fn lemma_key_lt_total(a: Seq<char>, b: Seq<char>)
    ensures
        a == b || key_lt(a, b) || key_lt(b, a),
{
    lemma_bytes_lt_total(encode_utf8(a), encode_utf8(b));
    assert(decode_utf8(encode_utf8(a)) == a);
    assert(decode_utf8(encode_utf8(b)) == b);
}

/// Storing a key keeps the keys sorted, and a key below all old keys and
/// the new one stays below all keys.
pub proof fn lemma_dict_insert_sorted(e: Seq<(Seq<char>, ValueView)>, key: Seq<char>, value: ValueView)
    requires
        keys_sorted(e),
    ensures
        keys_sorted(dict_insert(e, key, value)),
        forall|x: Seq<char>| key_below_all(x, e) && key_lt(x, key) ==> key_below_all(x, #[trigger] dict_insert(e, key, value)),
    decreases e.len(),
{
    let r = dict_insert(e, key, value);
    if e.len() == 0 {
        assert(keys_sorted(r));
    } else {
        let t = e.drop_first();
        assert(keys_sorted(t)) by {
            assert forall|i: int, j: int| 0 <= i < j < t.len() implies key_lt(#[trigger] t[i].0, #[trigger] t[j].0) by {
                assert(t[i] == e[i + 1]);
                assert(t[j] == e[j + 1]);
            }
        }
        assert(key_below_all(e[0].0, t)) by {
            assert forall|j: int| 0 <= j < t.len() implies key_lt(e[0].0, #[trigger] t[j].0) by {
                assert(t[j] == e[j + 1]);
            }
        }
        if e[0].0 == key {
            lemma_sorted_cons((key, value), t);
            assert forall|x: Seq<char>| key_below_all(x, e) && key_lt(x, key) implies key_below_all(x, r) by {
                assert forall|j: int| 0 <= j < r.len() implies key_lt(x, #[trigger] r[j].0) by {
                    if j > 0 {
                        assert(r[j] == e[j]);
                    }
                }
            }
        } else if key_lt(key, e[0].0) {
            assert(key_below_all(key, e)) by {
                assert forall|j: int| 0 <= j < e.len() implies key_lt(key, #[trigger] e[j].0) by {
                    if j > 0 {
                        lemma_key_lt_trans(key, e[0].0, e[j].0);
                    }
                }
            }
            lemma_sorted_cons((key, value), e);
            assert forall|x: Seq<char>| key_below_all(x, e) && key_lt(x, key) implies key_below_all(x, r) by {
                assert forall|j: int| 0 <= j < r.len() implies key_lt(x, #[trigger] r[j].0) by {
                    if j > 0 {
                        assert(r[j] == e[j - 1]);
                    }
                }
            }
        } else {
            lemma_key_lt_total(key, e[0].0);
            lemma_dict_insert_sorted(t, key, value);
            let rt = dict_insert(t, key, value);
            assert(key_below_all(e[0].0, rt));
            lemma_sorted_cons(e[0], rt);
            assert(r =~= seq![e[0]] + rt);
            assert forall|x: Seq<char>| key_below_all(x, e) && key_lt(x, key) implies key_below_all(x, r) by {
                assert forall|j: int| 0 <= j < r.len() implies key_lt(x, #[trigger] r[j].0) by {
                    assert(key_lt(x, e[0].0));
                    if j > 0 {
                        assert(r[j] == rt[j - 1]);
                        lemma_key_lt_trans(x, e[0].0, rt[j - 1].0);
                    }
                }
            }
        }
    }
}

impl PdfDictionary {
    /// Stores `value` under `key`, replacing an older value for that key.
    pub fn insert(&mut self, key: String, value: PdfValue)
        ensures
            final(self)@ == dict_insert(old(self)@, key@, value@),
            keys_sorted(old(self)@) ==> keys_sorted(final(self)@),
    {
        proof {
            if keys_sorted(self@) {
                lemma_dict_insert_sorted(self@, key@, value@);
            }
        }
        let ghost e0 = self@;
        let ghost kv = key@;
        let ghost vv = value@;
        let mut i: usize = 0;
        let mut same = false;
        while i < self.entries.len()
            invariant_except_break
                !same,
            invariant
                i <= self.entries@.len(),
                self@ == e0,
                kv == key@,
                vv == value@,
                forall|j: int| 0 <= j < i ==> #[trigger] e0[j].0 != kv && !key_lt(kv, e0[j].0),
            ensures
                i <= self.entries@.len(),
                self@ == e0,
                kv == key@,
                vv == value@,
                forall|j: int| 0 <= j < i ==> #[trigger] e0[j].0 != kv && !key_lt(kv, e0[j].0),
                same ==> i < e0.len() && e0[i as int].0 == kv,
                !same ==> i == e0.len() || key_lt(kv, e0[i as int].0),
            decreases self.entries@.len() - i,
        {
            proof { crate::value_views::lemma_entry_views(self.entries@); }
            assert(e0[i as int] == (self.entries@[i as int].0@, self.entries@[i as int].1@));
            let ks = key.as_str();
            let es = self.entries[i].0.as_str();
            let c = compare_bytes(ks.as_bytes(), es.as_bytes());
            if c == 0 {
                assert(ks@ == kv);
                assert(es@ == e0[i as int].0);
                assert(encode_utf8(kv) == encode_utf8(e0[i as int].0));
                assert(decode_utf8(encode_utf8(kv)) == kv);
                assert(decode_utf8(encode_utf8(e0[i as int].0)) == e0[i as int].0);
                same = true;
                break;
            }
            if c < 0 {
                break;
            }
            proof {
                lemma_bytes_lt_irreflexive(encode_utf8(kv));
                if key_lt(kv, e0[i as int].0) {
                    lemma_bytes_lt_transitive(encode_utf8(kv), encode_utf8(e0[i as int].0), encode_utf8(kv));
                }
            }
            i = i + 1;
        }
        proof {
            lemma_dict_insert_position(e0, kv, vv, i as int);
            lemma_bytes_lt_irreflexive(encode_utf8(kv));
        }
        if same {
            let _old_entry = self.entries.remove(i);
            self.entries.insert(i, (key, value));
            assert(self@ =~= e0.take(i as int) + seq![(kv, vv)] + e0.skip(i + 1));
        } else {
            self.entries.insert(i, (key, value));
            assert(self@ =~= e0.take(i as int) + seq![(kv, vv)] + e0.skip(i as int));
        }
    }
}

proof fn lemma_dict_insert_position(e: Seq<(Seq<char>, ValueView)>, key: Seq<char>, value: ValueView, i: int)
    requires
        0 <= i <= e.len(),
        forall|j: int| 0 <= j < i ==> #[trigger] e[j].0 != key && !key_lt(key, e[j].0),
        i == e.len() || e[i].0 == key || key_lt(key, e[i].0),
    ensures
        dict_insert(e, key, value) == e.take(i) + seq![(key, value)]
            + if i < e.len() && e[i].0 == key { e.skip(i + 1) } else { e.skip(i) },
    decreases i,
{
    if i == 0 {
        if e.len() == 0 {
            assert(e.take(0) + seq![(key, value)] + e.skip(0) =~= seq![(key, value)]);
        } else if e[0].0 == key {
            assert(e.take(0) + seq![(key, value)] + e.skip(1) =~= seq![(key, value)] + e.drop_first());
        } else {
            assert(e.take(0) + seq![(key, value)] + e.skip(0) =~= seq![(key, value)] + e);
        }
    } else {
        let t = e.drop_first();
        assert forall|j: int| 0 <= j < i - 1 implies #[trigger] t[j].0 != key && !key_lt(key, t[j].0) by {
            assert(t[j] == e[j + 1]);
        }
        if i - 1 < t.len() {
            assert(t[i - 1] == e[i]);
        }
        lemma_dict_insert_position(t, key, value, i - 1);
        assert(e[0].0 != key && !key_lt(key, e[0].0));
        if i < e.len() && e[i].0 == key {
            assert(seq![e[0]] + (t.take(i - 1) + seq![(key, value)] + t.skip(i)) =~= e.take(i) + seq![(key, value)] + e.skip(i + 1));
        } else {
            assert(seq![e[0]] + (t.take(i - 1) + seq![(key, value)] + t.skip(i - 1)) =~= e.take(i) + seq![(key, value)] + e.skip(i));
        }
    }
}


impl PdfValue {
    /// A copy of the value with the same text everywhere.
    pub fn deep_copy(&self) -> (r: PdfValue)
        ensures
            r@ == self@,
        decreases self,
    {
        match self {
            PdfValue::Null => PdfValue::Null,
            PdfValue::Boolean(b) => PdfValue::Boolean(*b),
            PdfValue::Number(n) => PdfValue::Number(PdfNumber { text: owned(n.text.as_str()) }),
            PdfValue::Name(s) => PdfValue::Name(owned(s.as_str())),
            PdfValue::String(s) => PdfValue::String(owned(s.as_str())),
            PdfValue::HexString(s) => PdfValue::HexString(owned(s.as_str())),
            PdfValue::Array(values) => {
                let mut out: Vec<PdfValue> = Vec::new();
                let mut i: usize = 0;
                while i < values.len()
                    invariant
                        *self == PdfValue::Array(*values),
                        i <= values@.len(),
                        out@.len() == i,
                        forall|k: int| 0 <= k < i ==> #[trigger] out@[k]@ == values@[k]@,
                    decreases values@.len() - i,
                {
                    proof {
                        assert(decreases_to!(*self => self->Array_0));
                        assert(decreases_to!(*values => values@));
                        assert(decreases_to!(values@ => values@[i as int]));
                    }
                    let item = values[i].deep_copy();
                    out.push(item);
                    i = i + 1;
                }
                assert(value_views(out@) =~= value_views(values@));
                PdfValue::Array(out)
            },
            PdfValue::Dictionary(d) => {
                let nd = d.deep_copy_entries();
                PdfValue::Dictionary(nd)
            },
            PdfValue::Reference(r) => PdfValue::Reference(*r),
            PdfValue::Raw(s) => PdfValue::Raw(owned(s.as_str())),
        }
    }
}

impl PdfDictionary {
    /// A copy of the dictionary with the same entries.
    pub fn deep_copy(&self) -> (r: PdfDictionary)
        ensures
            r@ == self@,
    {
        self.deep_copy_entries()
    }

    fn deep_copy_entries(&self) -> (r: PdfDictionary)
        ensures
            r@ == self@,
        decreases self,
    {
        let mut out: Vec<(String, PdfValue)> = Vec::new();
        let mut i: usize = 0;
        while i < self.entries.len()
            invariant
                i <= self.entries@.len(),
                out@.len() == i,
                forall|k: int| 0 <= k < i ==> (#[trigger] out@[k]).0@ == self.entries@[k].0@ && out@[k].1@ == self.entries@[k].1@,
            decreases self.entries@.len() - i,
        {
            proof {
                assert(decreases_to!(*self => self.entries));
                assert(decreases_to!(self.entries => self.entries@));
                assert(decreases_to!(self.entries@ => self.entries@[i as int]));
                assert(decreases_to!(self.entries@[i as int] => self.entries@[i as int].1));
            }
            let key = owned(self.entries[i].0.as_str());
            let value = self.entries[i].1.deep_copy();
            out.push((key, value));
            i = i + 1;
        }
        let nd = PdfDictionary { entries: out };
        assert(nd@ =~= self@);
        nd
    }
}

impl Clone for PdfValue {
    fn clone(&self) -> (r: PdfValue)
        ensures
            r@ == self@,
    {
        self.deep_copy()
    }
}

impl Clone for PdfDictionary {
    fn clone(&self) -> (r: PdfDictionary)
        ensures
            r@ == self@,
    {
        self.deep_copy()
    }
}

impl Clone for PdfNumber {
    fn clone(&self) -> (r: PdfNumber)
        ensures
            r.text@ == self.text@,
    {
        PdfNumber { text: owned(self.text.as_str()) }
    }
}


/// Scanning a number's bytes from the left: the value of the integer digits,
/// whether a `.` was seen, and whether every fraction digit is `0`.
pub open spec fn number_scan(t: Seq<u8>) -> (nat, bool, bool)
    decreases t.len(),
{
    if t.len() == 0 {
        (0, false, true)
    } else {
        let (v, dot, zero) = number_scan(t.drop_last());
        let c = t.last();
        if c == 0x2eu8 {
            (v, true, zero)
        } else if dot {
            (v, dot, zero && c == 0x30u8)
        } else if 0x30u8 <= c <= 0x39u8 {
            (v * 10 + (c - 0x30u8) as nat, dot, zero)
        } else {
            (v, dot, zero)
        }
    }
}

/// A number's value as a `usize`: present when it is a whole number that
/// is not below zero, saturating at `usize::MAX`.
pub open spec fn number_as_usize(t: Seq<char>) -> Option<usize> {
    let b = encode_utf8(t);
    let (v, dot, zero) = number_scan(b);
    let negative = b.len() > 0 && b[0] == 0x2du8;
    if zero && (!negative || v == 0) {
        Some(if v > usize::MAX { usize::MAX } else { v as usize })
    } else {
        None
    }
}

impl PdfNumber {
    /// The number's value as a `usize`, when it is a whole number not below zero.
    pub fn as_usize(&self) -> (r: Option<usize>)
        ensures
            r == number_as_usize(self.text@),
    {
        let b = self.text.as_str().as_bytes();
        let mut acc: usize = 0;
        let mut dot = false;
        let mut zero = true;
        let mut i: usize = 0;
        while i < b.len()
            invariant
                i <= b.len(),
                ({
                    let (v, d, z) = number_scan(b@.take(i as int));
                    acc == (if v > usize::MAX { usize::MAX } else { v as usize }) && dot == d && zero == z
                }),
            decreases b.len() - i,
        {
            assert(b@.take(i + 1).drop_last() =~= b@.take(i as int));
            let c = b[i];
            if c == 0x2e {
                dot = true;
            } else if dot {
                zero = zero && c == 0x30;
            } else if 0x30 <= c && c <= 0x39 {
                let d = (c - 0x30) as usize;
                if acc > (usize::MAX - d) / 10 {
                    acc = usize::MAX;
                } else {
                    acc = acc * 10 + d;
                }
            }
            i = i + 1;
        }
        assert(b@.take(b.len() as int) =~= b@);
        let negative = b.len() > 0 && b[0] == 0x2d;
        if zero && (!negative || acc == 0) {
            Some(acc)
        } else {
            None
        }
    }
}

/// A number's value as an `i32`: present when it is a whole number,
/// saturating at `i32::MIN` and `i32::MAX`.
pub open spec fn number_as_i32(t: Seq<char>) -> Option<i32> {
    let b = encode_utf8(t);
    let (v, dot, zero) = number_scan(b);
    let negative = b.len() > 0 && b[0] == 0x2du8;
    if zero {
        Some(if negative {
            if v >= 0x8000_0000 { i32::MIN } else { (0 - v) as i32 }
        } else {
            if v > i32::MAX { i32::MAX } else { v as i32 }
        })
    } else {
        None
    }
}

impl PdfNumber {
    /// The number's value as an `i32`, when it is a whole number.
    pub fn as_i32(&self) -> (r: Option<i32>)
        ensures
            r == number_as_i32(self.text@),
    {
        let b = self.text.as_str().as_bytes();
        let mut acc: u64 = 0;
        let mut dot = false;
        let mut zero = true;
        let mut i: usize = 0;
        while i < b.len()
            invariant
                i <= b.len(),
                ({
                    let (v, d, z) = number_scan(b@.take(i as int));
                    acc == (if v > 0x8000_0000 { 0x8000_0000 } else { v }) && dot == d && zero == z
                }),
            decreases b.len() - i,
        {
            assert(b@.take(i + 1).drop_last() =~= b@.take(i as int));
            let c = b[i];
            if c == 0x2e {
                dot = true;
            } else if dot {
                zero = zero && c == 0x30;
            } else if 0x30 <= c && c <= 0x39 {
                let d = (c - 0x30) as u64;
                let next = acc * 10 + d;
                acc = if next > 0x8000_0000 { 0x8000_0000 } else { next };
            }
            i = i + 1;
        }
        assert(b@.take(b.len() as int) =~= b@);
        let negative = b.len() > 0 && b[0] == 0x2d;
        if !zero {
            None
        } else if negative {
            if acc >= 0x8000_0000 { Some(i32::MIN) } else { Some(0 - (acc as i32)) }
        } else {
            if acc > 0x7fff_ffff { Some(i32::MAX) } else { Some(acc as i32) }
        }
    }
}

/// The dictionary in a value, if it is one.
pub open spec fn view_dictionary(v: ValueView) -> Option<Seq<(Seq<char>, ValueView)>> {
    match v {
        ValueView::Dictionary(d) => Some(d),
        _ => None,
    }
}

/// The name in a value, if it is one.
pub open spec fn view_name(v: ValueView) -> Option<Seq<char>> {
    match v {
        ValueView::Name(n) => Some(n),
        _ => None,
    }
}

/// The reference in a value, if it is one.
pub open spec fn view_reference(v: ValueView) -> Option<ObjectRef> {
    match v {
        ValueView::Reference(r) => Some(r),
        _ => None,
    }
}

/// The number in a value as a `usize`, if it is a whole number not below zero.
pub open spec fn view_usize(v: ValueView) -> Option<usize> {
    match v {
        ValueView::Number(t) => number_as_usize(t),
        _ => None,
    }
}

/// The value under `key` when `v` is a dictionary.
pub open spec fn view_get(v: ValueView, key: Seq<char>) -> Option<ValueView> {
    match v {
        ValueView::Dictionary(d) => dict_get(d, key),
        _ => None,
    }
}

impl PdfValue {
    pub fn as_dictionary(&self) -> (r: Option<&PdfDictionary>)
        ensures
            r is Some <==> self is Dictionary,
            r matches Some(d) ==> view_dictionary(self@) == Some(d@),
    {
        match self {
            PdfValue::Dictionary(d) => Some(d),
            _ => None,
        }
    }

    pub fn as_array(&self) -> (r: Option<&Vec<PdfValue>>)
        ensures
            r is Some <==> self is Array,
            r matches Some(a) ==> self@ == ValueView::Array(value_views(a@)),
    {
        match self {
            PdfValue::Array(a) => Some(a),
            _ => None,
        }
    }

    pub fn as_name(&self) -> (r: Option<&str>)
        ensures
            r is Some <==> self is Name,
            r matches Some(n) ==> view_name(self@) == Some(n@),
            r is None ==> view_name(self@) is None,
    {
        match self {
            PdfValue::Name(n) => Some(n.as_str()),
            _ => None,
        }
    }

    pub fn as_reference(&self) -> (r: Option<ObjectRef>)
        ensures
            r == view_reference(self@),
    {
        match self {
            PdfValue::Reference(r) => Some(*r),
            _ => None,
        }
    }

    pub fn as_usize(&self) -> (r: Option<usize>)
        ensures
            r == view_usize(self@),
    {
        match self {
            PdfValue::Number(n) => n.as_usize(),
            _ => None,
        }
    }

    pub fn get(&self, key: &str) -> (r: Option<&PdfValue>)
        ensures
            r is Some <==> view_get(self@, key@) is Some,
            r matches Some(v) ==> view_get(self@, key@) == Some(v@),
    {
        match self {
            PdfValue::Dictionary(d) => d.get(key),
            _ => None,
        }
    }
}


/// A stream object's dictionary and the location of its data.
#[derive(Debug)]
pub struct PdfStream {
    pub dictionary: PdfDictionary,
    pub declared_length: Option<usize>,
    pub actual_length: usize,
    pub filters: Vec<String>,
    pub raw_range: ByteRange,
    pub raw_bytes: Vec<u8>,
}

/// One indirect object.
#[derive(Debug)]
pub struct PdfObject {
    pub reference: ObjectRef,
    pub value: PdfValue,
    pub stream: Option<PdfStream>,
    pub raw_range: ByteRange,
    pub raw_bytes: Vec<u8>,
}

impl PdfObject {
    /// The object's dictionary: the stream dictionary of a stream, else the
    /// value when it is a dictionary.
    pub open spec fn spec_dictionary(self) -> Option<Seq<(Seq<char>, ValueView)>> {
        match self.stream {
            Some(s) => Some(s.dictionary@),
            None => view_dictionary(self.value@),
        }
    }

    pub fn dictionary(&self) -> (r: Option<&PdfDictionary>)
        ensures
            r is Some <==> self.spec_dictionary() is Some,
            r matches Some(d) ==> self.spec_dictionary() == Some(d@),
    {
        match &self.stream {
            Some(stream) => Some(&stream.dictionary),
            None => self.value.as_dictionary(),
        }
    }

    /// The object's raw bytes as text, invalid UTF-8 replaced.
    pub fn raw_text_lossy(&self) -> (s: String)
        ensures
            s@ == crate::text::utf8_lossy(self.raw_bytes@),
    {
        crate::text::lossy_string(self.raw_bytes.as_slice())
    }
}

/// One cross-reference table entry.
#[derive(Clone, Copy, Debug, PartialEq, Eq, Structural)]
pub struct XrefEntry {
    pub reference: ObjectRef,
    pub offset: usize,
    pub in_use: bool,
    pub valid_offset: Option<bool>,
}

/// A problem met while parsing, with its byte offset when known.
#[derive(Debug)]
pub struct ParseWarning {
    pub offset: Option<usize>,
    pub message: String,
}


/// Strings in strictly increasing order, each once.
pub open spec fn names_sorted(s: Seq<Seq<char>>) -> bool {
    forall|i: int, j: int| 0 <= i < j < s.len() ==> key_lt(#[trigger] s[i], #[trigger] s[j])
}

/// Adds a string to a sorted vector of distinct strings, keeping it sorted.
pub fn insert_sorted_unique(v: &mut Vec<String>, s: String)
    requires
        names_sorted(string_views(old(v)@)),
    ensures
        names_sorted(string_views(final(v)@)),
        forall|x: Seq<char>| #[trigger] string_views(final(v)@).contains(x)
            <==> (string_views(old(v)@).contains(x) || x == s@),
{
    let ghost old_v = string_views(v@);
    let ghost sv = s@;
    let mut i: usize = 0;
    while i < v.len()
        invariant
            i <= v@.len(),
            old_v == string_views(v@),
            sv == s@,
            names_sorted(old_v),
            forall|j: int| 0 <= j < i ==> key_lt(#[trigger] old_v[j], sv),
        ensures
            i <= v@.len(),
            old_v == string_views(v@),
            forall|j: int| 0 <= j < i ==> key_lt(#[trigger] old_v[j], sv),
            i == v@.len() || key_lt(sv, old_v[i as int]),
        decreases v@.len() - i,
    {
        let vs = v[i].as_str();
        let ss = s.as_str();
        let c = compare_bytes(ss.as_bytes(), vs.as_bytes());
        assert(old_v[i as int] == vs@);
        if c == 0 {
            assert(decode_utf8(encode_utf8(sv)) == sv);
            assert(decode_utf8(encode_utf8(old_v[i as int])) == old_v[i as int]);
            assert(old_v.contains(sv)) by { assert(old_v[i as int] == sv); }
            return;
        }
        if c < 0 {
            break;
        }
        i = i + 1;
    }
    let ghost pos = i as int;
    v.insert(i, s);
    let ghost nv = string_views(v@);
    assert(nv =~= old_v.insert(pos, sv));
    assert forall|a: int, b: int| 0 <= a < b < nv.len() implies key_lt(#[trigger] nv[a], #[trigger] nv[b]) by {
        if b < pos {
        } else if a < pos && b == pos {
        } else if a < pos && b > pos {
            assert(nv[b] == old_v[b - 1]);
            if pos < old_v.len() {
                lemma_key_lt_trans(nv[a], sv, old_v[pos]);
                if b - 1 > pos {
                    lemma_key_lt_trans(nv[a], old_v[pos], old_v[b - 1]);
                }
            }
        } else if a == pos {
            assert(nv[b] == old_v[b - 1]);
            if b - 1 > pos {
                lemma_key_lt_trans(sv, old_v[pos], old_v[b - 1]);
            }
        } else {
            assert(nv[a] == old_v[a - 1]);
            assert(nv[b] == old_v[b - 1]);
        }
    }
    assert forall|x: Seq<char>| #[trigger] nv.contains(x) <==> (old_v.contains(x) || x == sv) by {
        if nv.contains(x) {
            let k = choose|k: int| 0 <= k < nv.len() && nv[k] == x;
            if k < pos {
                assert(old_v[k] == x);
            } else if k > pos {
                assert(old_v[k - 1] == x);
            }
        }
        if old_v.contains(x) {
            let k = choose|k: int| 0 <= k < old_v.len() && old_v[k] == x;
            if k < pos {
                assert(nv[k] == x);
            } else {
                assert(nv[k + 1] == x);
            }
        }
        if x == sv {
            assert(nv[pos] == x);
        }
    }
}


/// What a parse found out about a document as a whole.
#[derive(Debug)]
pub struct PdfMetadata {
    pub file_name: String,
    pub file_size: usize,
    pub pdf_version: Option<String>,
    pub page_count: Option<u32>,
    pub encrypted: bool,
    pub linearized: bool,
    pub incremental_update_count: usize,
    pub root: Option<ObjectRef>,
    pub info: Option<ObjectRef>,
    pub trailer_keys: Vec<String>,
    /// The document information entries in key order, each value summarized.
    pub info_summary: Vec<(String, String)>,
    pub object_count: usize,
    pub stream_count: usize,
    pub xref_entry_count: usize,
    pub has_xref_stream: bool,
    pub has_object_stream: bool,
    pub parse_warning_count: usize,
}

/// A parsed document: metadata, trailer, objects in reference order,
/// cross-reference entries in reference order, and parse warnings.
#[derive(Debug)]
pub struct ParsedPdf {
    pub metadata: PdfMetadata,
    pub trailer: Option<PdfValue>,
    pub objects: Vec<PdfObject>,
    pub xref_entries: Vec<XrefEntry>,
    pub warnings: Vec<ParseWarning>,
}

impl ParsedPdf {
    /// The objects are kept in strictly increasing reference order.
    pub open spec fn wf(&self) -> bool {
        crate::objects::refs_sorted(crate::objects::object_views(self.objects@))
    }

    /// The object with this reference.
    pub fn object(&self, reference: ObjectRef) -> (r: Option<&PdfObject>)
        requires
            self.wf(),
        ensures
            match crate::objects::objects_get(crate::objects::object_views(self.objects@), reference) {
                Some(o) => r matches Some(x) && x@ == o,
                None => r is None,
            },
    {
        match crate::objects::find_object(&self.objects, reference) {
            Some(i) => Some(&self.objects[i]),
            None => None,
        }
    }

    /// The stream of the object with this reference.
    pub fn stream(&self, reference: ObjectRef) -> (r: Option<&PdfStream>)
        requires
            self.wf(),
        ensures
            match crate::objects::objects_get(crate::objects::object_views(self.objects@), reference) {
                Some(o) => match o.2 {
                    Some(sv) => r matches Some(x) && x@ == sv,
                    None => r is None,
                },
                None => r is None,
            },
    {
        match self.object(reference) {
            Some(o) => match &o.stream {
                Some(st) => Some(st),
                None => None,
            },
            None => None,
        }
    }

    /// The object a reference value points to.
    pub fn resolve_reference(&self, value: &PdfValue) -> (r: Option<&PdfObject>)
        requires
            self.wf(),
        ensures
            match view_reference(value@) {
                Some(reference) => match crate::objects::objects_get(crate::objects::object_views(self.objects@), reference) {
                    Some(o) => r matches Some(x) && x@ == o,
                    None => r is None,
                },
                None => r is None,
            },
    {
        match value.as_reference() {
            Some(reference) => self.object(reference),
            None => None,
        }
    }

    /// The document catalog: the object the trailer's `/Root` names.
    pub fn root_catalog(&self) -> (r: Option<&PdfObject>)
        requires
            self.wf(),
        ensures
            match self.metadata.root {
                Some(reference) => match crate::objects::objects_get(crate::objects::object_views(self.objects@), reference) {
                    Some(o) => r matches Some(x) && x@ == o,
                    None => r is None,
                },
                None => r is None,
            },
    {
        match self.metadata.root {
            Some(reference) => self.object(reference),
            None => None,
        }
    }
}

} // verus!

verus! {

/// The strings of `s` sorted, each once.
pub open spec fn sorted_names(s: Seq<Seq<char>>) -> Seq<Seq<char>> {
    choose|t: Seq<Seq<char>>| names_sorted(t) && forall|x: Seq<char>| #[trigger] t.contains(x) <==> s.contains(x)
}

/// Two sorted lists of distinct strings with the same members are equal.
pub proof fn lemma_sorted_names_unique(a: Seq<Seq<char>>, b: Seq<Seq<char>>)
    requires
        names_sorted(a),
        names_sorted(b),
        forall|x: Seq<char>| #[trigger] a.contains(x) <==> b.contains(x),
    ensures
        a == b,
    decreases a.len(),
{
    if a.len() == 0 {
        if b.len() > 0 {
            assert(b.contains(b[0]));
            assert(a.contains(b[0]));
        }
        assert(a =~= b);
    } else {
        assert(a.contains(a[0]));
        assert(b.contains(a[0]));
        assert(b.len() > 0);
        assert(b.contains(b[0]));
        assert(a.contains(b[0]));
        let j = choose|j: int| 0 <= j < b.len() && b[j] == a[0];
        let i = choose|i: int| 0 <= i < a.len() && a[i] == b[0];
        if a[0] != b[0] {
            assert(j > 0 && i > 0);
            assert(key_lt(b[0], b[j]));
            assert(key_lt(a[0], a[i]));
            lemma_key_lt_trans(a[0], a[i], a[0]);
            lemma_bytes_lt_irreflexive(encode_utf8(a[0]));
        }
        let ta = a.drop_first();
        let tb = b.drop_first();
        assert forall|x: Seq<char>| #[trigger] ta.contains(x) <==> tb.contains(x) by {
            if ta.contains(x) {
                let k = choose|k: int| 0 <= k < ta.len() && ta[k] == x;
                assert(a[k + 1] == x);
                assert(key_lt(a[0], a[k + 1]));
                assert(a.contains(x));
                assert(b.contains(x));
                let m = choose|m: int| 0 <= m < b.len() && b[m] == x;
                if m == 0 {
                    lemma_bytes_lt_irreflexive(encode_utf8(x));
                }
                assert(tb[m - 1] == x);
            }
            if tb.contains(x) {
                let k = choose|k: int| 0 <= k < tb.len() && tb[k] == x;
                assert(b[k + 1] == x);
                assert(key_lt(b[0], b[k + 1]));
                assert(b.contains(x));
                assert(a.contains(x));
                let m = choose|m: int| 0 <= m < a.len() && a[m] == x;
                if m == 0 {
                    lemma_bytes_lt_irreflexive(encode_utf8(x));
                }
                assert(ta[m - 1] == x);
            }
        }
        assert forall|p: int, q: int| 0 <= p < q < ta.len() implies key_lt(#[trigger] ta[p], #[trigger] ta[q]) by {
            assert(ta[p] == a[p + 1] && ta[q] == a[q + 1]);
        }
        assert forall|p: int, q: int| 0 <= p < q < tb.len() implies key_lt(#[trigger] tb[p], #[trigger] tb[q]) by {
            assert(tb[p] == b[p + 1] && tb[q] == b[q + 1]);
        }
        lemma_sorted_names_unique(ta, tb);
        assert(a =~= seq![a[0]] + ta);
        assert(b =~= seq![b[0]] + tb);
    }
}

/// A sorted list of distinct strings is the sorted form of its members.
pub proof fn lemma_sorted_names_is(a: Seq<Seq<char>>, s: Seq<Seq<char>>)
    requires
        names_sorted(a),
        forall|x: Seq<char>| #[trigger] a.contains(x) <==> s.contains(x),
    ensures
        sorted_names(s) == a,
{
    let t = sorted_names(s);
    assert(names_sorted(a) && forall|x: Seq<char>| #[trigger] a.contains(x) <==> s.contains(x));
    assert(names_sorted(t) && forall|x: Seq<char>| #[trigger] t.contains(x) <==> s.contains(x));
    lemma_sorted_names_unique(a, t);
}

} // verus!
