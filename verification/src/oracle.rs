//! The reference model of the key-value surface: what a read must return after
//! a sequence of writes, some of which failed.

use vstd::prelude::*;

use crate::le::{copy_bytes, same_bytes};
use crate::sorted::{entry_keys, lemma_ascending_distinct, text_before, TextMap};
use crate::text::{
    chars_of, copy_chars, find_char, find_from, lemma_entry_map, lemma_find_char_is, text_of,
};

verus! {

/// What a read of the model returns.
#[derive(Debug, Clone, PartialEq, Eq)]
pub enum OracleGetOutcome {
    Hit { payload: Vec<u8> },
    Miss,
}

impl View for OracleGetOutcome {
    type V = Option<Seq<u8>>;

    open spec fn view(&self) -> Option<Seq<u8>> {
        match *self {
            OracleGetOutcome::Hit { payload } => Some(payload@),
            OracleGetOutcome::Miss => None,
        }
    }
}

/// The model: the stored values and the number of writes seen.
#[derive(Debug, Clone, PartialEq, Eq)]
pub struct WombatKvOracle {
    /// Values under `namespace U+0001 key`.
    pub store: TextMap<Vec<u8>>,
    /// Writes, failed ones too.
    pub ops_observed: u64,
}

/// The key under which a value of a namespace is stored.
pub open spec fn composite(namespace: Seq<char>, key: Seq<char>) -> Seq<char> {
    namespace + seq!['\u{1}'] + key
}

/// What is stored in a namespace under a key.
pub open spec fn stored(
    store: Map<Seq<char>, Vec<u8>>,
    namespace: Seq<char>,
    key: Seq<char>,
) -> Option<Seq<u8>> {
    if store.dom().contains(composite(namespace, key)) {
        Some(store[composite(namespace, key)]@)
    } else {
        None
    }
}

/// The namespace and the key in a composite key.
pub open spec fn parts_of(composite: Seq<char>) -> (Seq<char>, Seq<char>) {
    let at = find_char(composite, '\u{1}');
    if at >= composite.len() {
        (Seq::empty(), composite)
    } else {
        (composite.take(at as int), composite.skip(at as int + 1))
    }
}

/// Whether a text holds no separator.
pub open spec fn no_separator(text: Seq<char>) -> bool {
    forall|i: int| 0 <= i < text.len() ==> #[trigger] text[i] != '\u{1}'
}

/// The composite key of a namespace without separators falls into its parts.
pub proof fn composite_parts(namespace: Seq<char>, key: Seq<char>)
    requires
        no_separator(namespace),
    ensures
        parts_of(composite(namespace, key)) == (namespace, key),
{
    let whole = composite(namespace, key);
    assert(whole[namespace.len() as int] == '\u{1}');
    assert forall|i: int| 0 <= i < namespace.len() implies #[trigger] whole[i] != '\u{1}' by {
        assert(whole[i] == namespace[i]);
    }
    lemma_find_char_is(whole, '\u{1}', namespace.len() as int);
    assert(whole.take(namespace.len() as int) =~= namespace);
    assert(whole.skip(namespace.len() as int + 1) =~= key);
}

fn composite_key(namespace: &str, key: &str) -> (whole: String)
    ensures
        whole@ == composite(namespace@, key@),
{
    let mut whole = String::new();
    whole.push_str(namespace);
    whole.push('\u{1}');
    whole.push_str(key);
    assert(whole@ =~= composite(namespace@, key@));
    whole
}

/// The texts of pairs of strings.
pub open spec fn pair_texts(pairs: Seq<(String, String)>) -> Seq<(Seq<char>, Seq<char>)> {
    pairs.map_values(|p: (String, String)| (p.0@, p.1@))
}

/// The parts of composite keys.
pub open spec fn all_parts(keys: Seq<Seq<char>>) -> Seq<(Seq<char>, Seq<char>)> {
    keys.map_values(|k: Seq<char>| parts_of(k))
}

/// The number of writes after one more.
pub open spec fn one_more(count: u64) -> u64 {
    if count < u64::MAX {
        (count + 1) as u64
    } else {
        u64::MAX
    }
}

impl Default for WombatKvOracle {
    fn default() -> (oracle: WombatKvOracle)
        ensures
            oracle.well_formed(),
            oracle.store@ == Map::<Seq<char>, Vec<u8>>::empty(),
            oracle.store.entries@.len() == 0,
            oracle.ops_observed == 0,
    {
        WombatKvOracle::new()
    }
}

impl WombatKvOracle {
    /// The stored keys are in order.
    pub open spec fn well_formed(&self) -> bool {
        self.store.well_formed()
    }

    /// A model that has seen nothing.
    pub fn new() -> (oracle: Self)
        ensures
            oracle.well_formed(),
            oracle.store@ == Map::<Seq<char>, Vec<u8>>::empty(),
            oracle.store.entries@.len() == 0,
            oracle.ops_observed == 0,
    {
        WombatKvOracle { store: TextMap::new(), ops_observed: 0 }
    }

    /// Write a value.
    pub fn put_kv(&mut self, namespace: &str, key: &str, payload: &[u8])
        requires
            old(self).well_formed(),
        ensures
            final(self).well_formed(),
            exists|value: Vec<u8>|
                value@ == payload@ && final(self).store@ == #[trigger] old(self).store@.insert(
                    composite(namespace@, key@),
                    value,
                ),
            final(self).store.entries@.len() == old(self).store.entries@.len() + (if old(
                self,
            ).store@.dom().contains(composite(namespace@, key@)) {
                0int
            } else {
                1
            }),
            final(self).ops_observed == one_more(old(self).ops_observed),
    {
        let value = copy_bytes(payload);
        self.store.insert(composite_key(namespace, key), value);
        self.ops_observed = self.ops_observed.saturating_add(1);
    }

    /// Note a write that failed: nothing is stored, and an earlier value stays.
    pub fn put_kv_failed(&mut self, _namespace: &str, _key: &str)
        requires
            old(self).well_formed(),
        ensures
            final(self).well_formed(),
            final(self).store == old(self).store,
            final(self).ops_observed == one_more(old(self).ops_observed),
    {
        self.ops_observed = self.ops_observed.saturating_add(1);
    }

    /// Read a value.
    pub fn get_kv(&self, namespace: &str, key: &str) -> (outcome: OracleGetOutcome)
        requires
            self.well_formed(),
        ensures
            outcome@ == stored(self.store@, namespace@, key@),
    {
        match self.store.get(&composite_key(namespace, key)) {
            Some(bytes) => OracleGetOutcome::Hit { payload: copy_bytes(bytes) },
            None => OracleGetOutcome::Miss,
        }
    }

    /// The namespaces and keys of all stored values.
    pub fn keys(&self) -> (keys: Vec<(String, String)>)
        ensures
            pair_texts(keys@) == all_parts(entry_keys(self.store.entries@)),
    {
        let ghost all = entry_keys(self.store.entries@);
        let mut keys: Vec<(String, String)> = Vec::new();
        let mut i: usize = 0;
        while i < self.store.entries.len()
            invariant
                i <= self.store.entries@.len(),
                all == entry_keys(self.store.entries@),
                pair_texts(keys@) == all_parts(all.take(i as int)),
            decreases self.store.entries@.len() - i,
        {
            let ghost before = keys@;
            let pair = split_composite(&self.store.entries[i].0);
            keys.push(pair);
            proof {
                assert(all[i as int] == self.store.entries@[i as int].0@);
                assert(pair_texts(keys@) =~= pair_texts(before).push((pair.0@, pair.1@)));
                assert(all_parts(all.take(i + 1)) =~= all_parts(all.take(i as int)).push(
                    parts_of(all[i as int]),
                ));
            }
            i = i + 1;
        }
        assert(all.take(i as int) =~= all);
        keys
    }

    /// The number of stored values.
    pub fn len(&self) -> (len: usize)
        ensures
            len == self.store.entries@.len(),
    {
        self.store.len()
    }

    /// Whether nothing is stored.
    pub fn is_empty(&self) -> (empty: bool)
        ensures
            empty == (self.store.entries@.len() == 0),
    {
        self.store.len() == 0
    }
}

/// Split a composite key at its first separator.
fn split_composite(whole: &str) -> (parts: (String, String))
    ensures
        (parts.0@, parts.1@) == parts_of(whole@),
{
    let chars = chars_of(whole);
    let at: usize = find_from(&chars, 0, '\u{1}');
    assert(chars@.skip(0) =~= chars@);
    if at >= chars.len() {
        let empty = String::new();
        assert(empty@ =~= Seq::<char>::empty());
        return (empty, whole.to_owned());
    }
    let namespace = copy_chars(&chars, 0, at);
    let key = copy_chars(&chars, at + 1, chars.len());
    assert(namespace@ =~= whole@.take(at as int));
    assert(key@ =~= whole@.skip(at as int + 1));
    (text_of(&namespace), text_of(&key))
}

/// Whether an observed read is the one that the model predicts.
#[derive(Debug, Clone, PartialEq, Eq)]
pub enum Verdict {
    /// It is.
    Match,
    /// It is not, which is a defect.
    Divergence {
        namespace: String,
        key: String,
        expected: OracleGetOutcome,
        observed: OracleGetOutcome,
    },
}

fn same_outcome(a: &OracleGetOutcome, b: &OracleGetOutcome) -> (same: bool)
    ensures
        same == (a@ == b@),
{
    match (a, b) {
        (OracleGetOutcome::Hit { payload: x }, OracleGetOutcome::Hit { payload: y }) => same_bytes(
            x,
            y,
        ),
        (OracleGetOutcome::Miss, OracleGetOutcome::Miss) => true,
        _ => false,
    }
}

impl Verdict {
    /// Compare an observed read with the model's.
    pub fn check_get(
        oracle: &WombatKvOracle,
        namespace: &str,
        key: &str,
        observed: OracleGetOutcome,
    ) -> (verdict: Self)
        requires
            oracle.well_formed(),
        ensures
            match verdict {
                Verdict::Match => observed@ == stored(oracle.store@, namespace@, key@),
                Verdict::Divergence { namespace: n, key: k, expected: e, observed: o } => {
                    &&& observed@ != stored(oracle.store@, namespace@, key@)
                    &&& n@ == namespace@
                    &&& k@ == key@
                    &&& e@ == stored(oracle.store@, namespace@, key@)
                    &&& o == observed
                },
            },
    {
        let expected = oracle.get_kv(namespace, key);
        if same_outcome(&expected, &observed) {
            Verdict::Match
        } else {
            Verdict::Divergence {
                namespace: namespace.to_owned(),
                key: key.to_owned(),
                expected,
                observed,
            }
        }
    }
}

// ---- laws ----

/// A read returns what was last written.
pub proof fn read_your_writes(
    store: Map<Seq<char>, Vec<u8>>,
    namespace: Seq<char>,
    key: Seq<char>,
    value: Vec<u8>,
)
    ensures
        stored(store.insert(composite(namespace, key), value), namespace, key) == Some(value@),
{
}

/// A write changes no other key and no other namespace, as long as namespaces
/// hold no separator.
pub proof fn writes_are_isolated(
    store: Map<Seq<char>, Vec<u8>>,
    namespace: Seq<char>,
    key: Seq<char>,
    value: Vec<u8>,
    other_namespace: Seq<char>,
    other_key: Seq<char>,
)
    requires
        no_separator(namespace),
        no_separator(other_namespace),
        namespace != other_namespace || key != other_key,
    ensures
        stored(store.insert(composite(namespace, key), value), other_namespace, other_key)
            == stored(store, other_namespace, other_key),
{
    composite_parts(namespace, key);
    composite_parts(other_namespace, other_key);
}

/// Writing the same value twice reads the same as writing it once.
pub proof fn identical_puts_agree(
    store: Map<Seq<char>, Vec<u8>>,
    namespace: Seq<char>,
    key: Seq<char>,
    first: Vec<u8>,
    second: Vec<u8>,
    other_namespace: Seq<char>,
    other_key: Seq<char>,
)
    requires
        first@ == second@,
    ensures
        stored(
            store.insert(composite(namespace, key), first).insert(
                composite(namespace, key),
                second,
            ),
            other_namespace,
            other_key,
        ) == stored(
            store.insert(composite(namespace, key), first),
            other_namespace,
            other_key,
        ),
{
}

/// Whether a text holds neither the separator nor the character before it.
pub open spec fn plain(text: Seq<char>) -> bool {
    forall|i: int| 0 <= i < text.len() ==> #[trigger] text[i] > '\u{1}'
}

/// Whether everything in a store was put under a plain namespace and key.
pub open spec fn put_plainly(store: Map<Seq<char>, Vec<u8>>) -> bool {
    forall|whole: Seq<char>| #[trigger]
        store.dom().contains(whole) ==> {
            let (namespace, key) = parts_of(whole);
            plain(namespace) && plain(key) && whole == composite(namespace, key)
        }
}

/// Whether a pair of texts stands before another: by the first texts, then by
/// the second.
pub open spec fn pair_before(a: (Seq<char>, Seq<char>), b: (Seq<char>, Seq<char>)) -> bool {
    text_before(a.0, b.0) || (a.0 == b.0 && text_before(a.1, b.1))
}

/// Puts under plain namespaces and keys keep a store plain.
pub proof fn puts_stay_plain(
    store: Map<Seq<char>, Vec<u8>>,
    namespace: Seq<char>,
    key: Seq<char>,
    value: Vec<u8>,
)
    requires
        put_plainly(store),
        plain(namespace),
        plain(key),
    ensures
        put_plainly(store.insert(composite(namespace, key), value)),
{
    assert(no_separator(namespace));
    composite_parts(namespace, key);
}

/// The keys of a model ascend, so none comes twice; there are as many as there
/// are values; and they are exactly those on which a read hits.
pub proof fn keys_are_the_hits(oracle: WombatKvOracle, keys: Seq<(Seq<char>, Seq<char>)>)
    requires
        oracle.well_formed(),
        put_plainly(oracle.store@),
        keys == all_parts(entry_keys(oracle.store.entries@)),
    ensures
        keys.len() == oracle.store.entries@.len(),
        forall|i: int, j: int|
            0 <= i < j < keys.len() ==> pair_before(#[trigger] keys[i], #[trigger] keys[j]),
        forall|namespace: Seq<char>, key: Seq<char>|
            keys.contains((namespace, key)) <==> #[trigger] stored(
                oracle.store@,
                namespace,
                key,
            ) is Some,
{
    let entries = oracle.store.entries@;
    lemma_ascending_distinct(entries);
    lemma_entry_map(entries);
    assert forall|i: int| 0 <= i < entries.len() implies {
        let pair = #[trigger] keys[i];
        plain(pair.0) && plain(pair.1) && entries[i].0@ == composite(pair.0, pair.1)
    } by {
        assert(entry_keys(entries)[i] == entries[i].0@);
        assert(oracle.store@.dom().contains(entries[i].0@));
    }
    assert forall|i: int, j: int| 0 <= i < j < keys.len() implies pair_before(
        #[trigger] keys[i],
        #[trigger] keys[j],
    ) by {
        assert(text_before(entries[i].0@, entries[j].0@));
        lemma_composite_order(keys[i].0, keys[i].1, keys[j].0, keys[j].1);
    }
    assert forall|namespace: Seq<char>, key: Seq<char>|
        keys.contains((namespace, key)) <==> #[trigger] stored(
            oracle.store@,
            namespace,
            key,
        ) is Some by {
        let whole = composite(namespace, key);
        if keys.contains((namespace, key)) {
            let i = choose|i: int| 0 <= i < keys.len() && keys[i] == (namespace, key);
            assert(entries[i].0@ == whole);
            assert(oracle.store@.dom().contains(entries[i].0@));
        }
        if oracle.store@.dom().contains(whole) {
            let i = choose|i: int| 0 <= i < entries.len() && (#[trigger] entries[i]).0@ == whole;
            lemma_plain_parts(keys[i].0, keys[i].1, namespace, key);
        }
    }
}

/// A composite of plain parts is a composite in one way only.
proof fn lemma_plain_parts(a: Seq<char>, b: Seq<char>, c: Seq<char>, d: Seq<char>)
    requires
        plain(a),
        plain(b),
        composite(a, b) == composite(c, d),
    ensures
        a == c,
        b == d,
{
    let whole = composite(a, b);
    let at = c.len() as int;
    assert(composite(c, d)[at] == '\u{1}');
    assert(composite(c, d).len() == c.len() + 1 + d.len());
    if at < a.len() {
        assert(whole[at] == a[at]);
    } else if at > a.len() {
        assert(whole[at] == b[at - a.len() - 1]);
    }
    assert(whole.take(at) =~= a && composite(c, d).take(at) =~= c);
    assert(whole.skip(at + 1) =~= b && composite(c, d).skip(at + 1) =~= d);
}

/// Composites of plain namespaces stand in the order of their parts.
proof fn lemma_composite_order(a: Seq<char>, b: Seq<char>, c: Seq<char>, d: Seq<char>)
    requires
        plain(a),
        plain(c),
        text_before(composite(a, b), composite(c, d)),
    ensures
        pair_before((a, b), (c, d)),
    decreases a.len(),
{
    let x = composite(a, b);
    let y = composite(c, d);
    if a.len() == 0 {
        assert(x[0] == '\u{1}');
        if c.len() == 0 {
            assert(a =~= c);
            assert(x.drop_first() =~= b && y.drop_first() =~= d);
        }
    } else {
        assert(x[0] == a[0]);
        if c.len() == 0 {
            assert(y[0] == '\u{1}');
        } else {
            assert(y[0] == c[0]);
            if a[0] == c[0] {
                let a1 = a.drop_first();
                let c1 = c.drop_first();
                assert(x.drop_first() =~= composite(a1, b));
                assert(y.drop_first() =~= composite(c1, d));
                lemma_composite_order(a1, b, c1, d);
                if a1 == c1 {
                    assert(a =~= seq![a[0]] + a1);
                    assert(c =~= seq![c[0]] + c1);
                }
            }
        }
    }
}

} // verus!
