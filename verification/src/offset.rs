//! Offsets: where a reader stands on each of its channels, how two positions
//! compare, and how two frontiers merge.

use crate::text::text_equal;
use vstd::prelude::*;

verus! {

/// The channel of a source on which a position is counted.
#[derive(Debug, PartialEq, Eq)]
pub enum OffsetKey {
    /// One partition of a message-bus topic.
    Kafka(String, i32),
    /// The only channel of a single-stream source.
    Empty,
}

/// The mathematical content of an [`OffsetKey`].
pub enum OffsetKeyView {
    Kafka(Seq<char>, i32),
    Empty,
}

impl View for OffsetKey {
    type V = OffsetKeyView;

    open spec fn view(&self) -> OffsetKeyView {
        match self {
            OffsetKey::Kafka(topic, partition) => OffsetKeyView::Kafka(topic@, *partition),
            OffsetKey::Empty => OffsetKeyView::Empty,
        }
    }
}

impl OffsetKey {
    /// Whether two keys name the same channel.
    pub fn same(&self, other: &OffsetKey) -> (r: bool)
        ensures
            r == (self@ == other@),
    {
        match self {
            OffsetKey::Kafka(topic, partition) => match other {
                OffsetKey::Kafka(other_topic, other_partition) => *partition == *other_partition
                    && text_equal(topic.as_str(), other_topic.as_str()),
                OffsetKey::Empty => false,
            },
            OffsetKey::Empty => match other {
                OffsetKey::Kafka(_, _) => false,
                OffsetKey::Empty => true,
            },
        }
    }
}

impl Clone for OffsetKey {
    fn clone(&self) -> (r: Self)
        ensures
            r@ == self@,
    {
        match self {
            OffsetKey::Kafka(topic, partition) => OffsetKey::Kafka(topic.clone(), *partition),
            OffsetKey::Empty => OffsetKey::Empty,
        }
    }
}

/// A position on one channel.
#[derive(Debug, PartialEq, Eq)]
pub enum OffsetValue {
    /// Offset of a message within its partition.
    KafkaOffset(i64),
    /// Position within the files of a directory.
    FilePosition { total_entries_read: u64, path: String, bytes_offset: u64 },
    /// Position within the objects of a bucket.
    S3ObjectPosition { total_entries_read: u64, path: String, bytes_offset: u64 },
    /// Number of the entry handed over by an in-process producer.
    PythonEntrySequentialId(u64),
    /// The position of a source that keeps none.
    Empty,
}

/// The mathematical content of an [`OffsetValue`].
pub enum OffsetValueView {
    KafkaOffset(i64),
    FilePosition { total_entries_read: u64, path: Seq<char>, bytes_offset: u64 },
    S3ObjectPosition { total_entries_read: u64, path: Seq<char>, bytes_offset: u64 },
    PythonEntrySequentialId(u64),
    Empty,
}

impl View for OffsetValue {
    type V = OffsetValueView;

    open spec fn view(&self) -> OffsetValueView {
        match self {
            OffsetValue::KafkaOffset(position) => OffsetValueView::KafkaOffset(*position),
            OffsetValue::FilePosition { total_entries_read, path, bytes_offset } => (
            OffsetValueView::FilePosition {
                total_entries_read: *total_entries_read,
                path: path@,
                bytes_offset: *bytes_offset,
            }),
            OffsetValue::S3ObjectPosition { total_entries_read, path, bytes_offset } => (
            OffsetValueView::S3ObjectPosition {
                total_entries_read: *total_entries_read,
                path: path@,
                bytes_offset: *bytes_offset,
            }),
            OffsetValue::PythonEntrySequentialId(id) => OffsetValueView::PythonEntrySequentialId(
                *id,
            ),
            OffsetValue::Empty => OffsetValueView::Empty,
        }
    }
}

impl OffsetValue {
    /// Whether two positions are the same.
    pub fn same(&self, other: &OffsetValue) -> (r: bool)
        ensures
            r == (self@ == other@),
    {
        match self {
            OffsetValue::KafkaOffset(position) => match other {
                OffsetValue::KafkaOffset(other_position) => *position == *other_position,
                _ => false,
            },
            OffsetValue::FilePosition { total_entries_read, path, bytes_offset } => match other {
                OffsetValue::FilePosition {
                    total_entries_read: other_entries,
                    path: other_path,
                    bytes_offset: other_bytes,
                } => *total_entries_read == *other_entries && *bytes_offset == *other_bytes
                    && text_equal(path.as_str(), other_path.as_str()),
                _ => false,
            },
            OffsetValue::S3ObjectPosition {
                total_entries_read,
                path,
                bytes_offset,
            } => match other {
                OffsetValue::S3ObjectPosition {
                    total_entries_read: other_entries,
                    path: other_path,
                    bytes_offset: other_bytes,
                } => *total_entries_read == *other_entries && *bytes_offset == *other_bytes
                    && text_equal(path.as_str(), other_path.as_str()),
                _ => false,
            },
            OffsetValue::PythonEntrySequentialId(id) => match other {
                OffsetValue::PythonEntrySequentialId(other_id) => *id == *other_id,
                _ => false,
            },
            OffsetValue::Empty => match other {
                OffsetValue::Empty => true,
                _ => false,
            },
        }
    }

    /// Whether `candidate` lies strictly further on the same kind of channel.
    pub fn is_behind(&self, candidate: &OffsetValue) -> (r: bool)
        ensures
            r == advances(self@, candidate@),
    {
        match self {
            OffsetValue::KafkaOffset(position) => match candidate {
                OffsetValue::KafkaOffset(other_position) => *other_position > *position,
                _ => false,
            },
            OffsetValue::FilePosition { total_entries_read, .. } => match candidate {
                OffsetValue::FilePosition { total_entries_read: other_entries, .. } => {
                    *other_entries > *total_entries_read
                },
                _ => false,
            },
            OffsetValue::S3ObjectPosition { total_entries_read, .. } => match candidate {
                OffsetValue::S3ObjectPosition { total_entries_read: other_entries, .. } => {
                    *other_entries > *total_entries_read
                },
                _ => false,
            },
            OffsetValue::PythonEntrySequentialId(id) => match candidate {
                OffsetValue::PythonEntrySequentialId(other_id) => *other_id > *id,
                _ => false,
            },
            OffsetValue::Empty => false,
        }
    }

    /// Whether the two positions can be compared: they are of the same kind,
    /// and that kind is ordered.
    pub fn is_comparable_with(&self, other: &OffsetValue) -> (r: bool)
        ensures
            r == comparable(self@, other@),
    {
        match self {
            OffsetValue::KafkaOffset(_) => match other {
                OffsetValue::KafkaOffset(_) => true,
                _ => false,
            },
            OffsetValue::FilePosition { .. } => match other {
                OffsetValue::FilePosition { .. } => true,
                _ => false,
            },
            OffsetValue::S3ObjectPosition { .. } => match other {
                OffsetValue::S3ObjectPosition { .. } => true,
                _ => false,
            },
            OffsetValue::PythonEntrySequentialId(_) => match other {
                OffsetValue::PythonEntrySequentialId(_) => true,
                _ => false,
            },
            OffsetValue::Empty => false,
        }
    }
}

impl Clone for OffsetValue {
    fn clone(&self) -> (r: Self)
        ensures
            r@ == self@,
    {
        match self {
            OffsetValue::KafkaOffset(position) => OffsetValue::KafkaOffset(*position),
            OffsetValue::FilePosition { total_entries_read, path, bytes_offset } => {
                OffsetValue::FilePosition {
                    total_entries_read: *total_entries_read,
                    path: path.clone(),
                    bytes_offset: *bytes_offset,
                }
            },
            OffsetValue::S3ObjectPosition { total_entries_read, path, bytes_offset } => {
                OffsetValue::S3ObjectPosition {
                    total_entries_read: *total_entries_read,
                    path: path.clone(),
                    bytes_offset: *bytes_offset,
                }
            },
            OffsetValue::PythonEntrySequentialId(id) => OffsetValue::PythonEntrySequentialId(*id),
            OffsetValue::Empty => OffsetValue::Empty,
        }
    }
}

/// A channel together with a position on it.
pub type Offset = (OffsetKey, OffsetValue);

/// The mathematical content of an [`Offset`].
pub type OffsetView = (OffsetKeyView, OffsetValueView);

/// The offset of sources that keep no position.
pub fn empty_offset() -> (r: Offset)
    ensures
        r@ == (OffsetKeyView::Empty, OffsetValueView::Empty),
{
    (OffsetKey::Empty, OffsetValue::Empty)
}

/// The number by which positions of one kind are ordered: the message offset,
/// the count of entries read, or the sequential id. The empty position has
/// none.
pub open spec fn position_of(v: OffsetValueView) -> Option<int> {
    match v {
        OffsetValueView::KafkaOffset(position) => Some(position as int),
        OffsetValueView::FilePosition { total_entries_read, .. } => Some(
            total_entries_read as int,
        ),
        OffsetValueView::S3ObjectPosition { total_entries_read, .. } => Some(
            total_entries_read as int,
        ),
        OffsetValueView::PythonEntrySequentialId(id) => Some(id as int),
        OffsetValueView::Empty => None,
    }
}

/// Two positions can be compared when they are of the same kind and that kind
/// is ordered.
pub open spec fn comparable(a: OffsetValueView, b: OffsetValueView) -> bool {
    ||| a is KafkaOffset && b is KafkaOffset
    ||| a is FilePosition && b is FilePosition
    ||| a is S3ObjectPosition && b is S3ObjectPosition
    ||| a is PythonEntrySequentialId && b is PythonEntrySequentialId
}

/// `candidate` lies strictly beyond `current` under the order of their kind.
pub open spec fn advances(current: OffsetValueView, candidate: OffsetValueView) -> bool {
    comparable(current, candidate) && position_of(candidate).unwrap() > position_of(
        current,
    ).unwrap()
}

/// What a merge keeps for a key that both sides hold: the right value when it
/// lies beyond the left one, the left value otherwise (so also when the two
/// cannot be compared).
pub open spec fn merged_value(left: OffsetValueView, right: OffsetValueView) -> OffsetValueView {
    if advances(left, right) {
        right
    } else {
        left
    }
}

/// The merge of two frontiers: every key of either side, with the value of the
/// only side that holds it or the merged value of both.
pub open spec fn merged_frontier(
    lhs: Map<OffsetKeyView, OffsetValueView>,
    rhs: Map<OffsetKeyView, OffsetValueView>,
) -> Map<OffsetKeyView, OffsetValueView> {
    Map::new(
        |k: OffsetKeyView| lhs.contains_key(k) || rhs.contains_key(k),
        |k: OffsetKeyView|
            if lhs.contains_key(k) {
                if rhs.contains_key(k) {
                    merged_value(lhs[k], rhs[k])
                } else {
                    lhs[k]
                }
            } else {
                rhs[k]
            },
    )
}

/// A frontier: the furthest position reached on each channel.
#[derive(Debug)]
pub struct OffsetAntichain {
    antichain: Vec<(OffsetKey, OffsetValue)>,
}

impl OffsetAntichain {
    /// The channels of the frontier, in the order in which they are stored.
    pub closed spec fn keys(&self) -> Seq<OffsetKeyView> {
        Seq::new(self.antichain.len() as nat, |i: int| self.antichain[i].0@)
    }

    /// The positions, each at the place of its channel.
    pub closed spec fn values(&self) -> Seq<OffsetValueView> {
        Seq::new(self.antichain.len() as nat, |i: int| self.antichain[i].1@)
    }

    /// Every channel occurs once.
    pub open spec fn wf(&self) -> bool {
        &&& self.keys().no_duplicates()
        &&& self.keys().len() == self.values().len()
    }

    /// The frontier as a map from channel to position.
    pub open spec fn view(&self) -> Map<OffsetKeyView, OffsetValueView> {
        Map::new(
            |k: OffsetKeyView| self.keys().contains(k),
            |k: OffsetKeyView| self.values()[self.keys().index_of(k)],
        )
    }

    /// The entry stored at place `i` is the mapping of its channel.
    pub proof fn lemma_entry(&self, i: int)
        requires
            self.wf(),
            0 <= i < self.keys().len(),
        ensures
            self@.contains_key(self.keys()[i]),
            self@[self.keys()[i]] == self.values()[i],
    {
        let k = self.keys()[i];
        assert(self.keys().contains(k));
        let j = self.keys().index_of(k);
        assert(0 <= j < self.keys().len() && self.keys()[j] == k);
    }

    /// A channel of the frontier is stored at some place.
    pub proof fn lemma_key_position(&self, k: OffsetKeyView) -> (i: int)
        requires
            self.wf(),
            self@.contains_key(k),
        ensures
            0 <= i < self.keys().len(),
            self.keys()[i] == k,
            self.values()[i] == self@[k],
    {
        let i = self.keys().index_of(k);
        assert(self.keys().contains(k));
        i
    }

    /// The frontier without channels: nothing is stored in it.
    pub fn new() -> (r: Self)
        ensures
            r.wf(),
            r.keys() == Seq::<OffsetKeyView>::empty(),
            r.values() == Seq::<OffsetValueView>::empty(),
            r@ == Map::<OffsetKeyView, OffsetValueView>::empty(),
    {
        let r = OffsetAntichain { antichain: Vec::new() };
        assert(r.keys() =~= Seq::<OffsetKeyView>::empty());
        assert(r.values() =~= Seq::<OffsetValueView>::empty());
        assert(r@ =~= Map::<OffsetKeyView, OffsetValueView>::empty());
        r
    }

    /// Number of channels.
    pub fn len(&self) -> (n: usize)
        ensures
            n == self.keys().len(),
    {
        self.antichain.len()
    }

    /// Whether the frontier holds no channel.
    pub fn is_empty(&self) -> (r: bool)
        ensures
            r == (self.keys().len() == 0),
    {
        self.antichain.len() == 0
    }

    /// The channel stored at place `i`.
    pub fn key_at(&self, i: usize) -> (k: &OffsetKey)
        requires
            i < self.keys().len(),
        ensures
            k@ == self.keys()[i as int],
    {
        &self.antichain[i].0
    }

    /// The position stored at place `i`.
    pub fn value_at(&self, i: usize) -> (v: &OffsetValue)
        requires
            i < self.keys().len(),
        ensures
            v@ == self.values()[i as int],
    {
        &self.antichain[i].1
    }

    fn place_of(&self, offset_key: &OffsetKey) -> (r: Option<usize>)
        ensures
            match r {
                Some(i) => i < self.keys().len() && self.keys()[i as int] == offset_key@,
                None => !self.keys().contains(offset_key@),
            },
    {
        let mut i: usize = 0;
        while i < self.antichain.len()
            invariant
                i <= self.antichain.len(),
                forall|j: int| 0 <= j < i ==> self.keys()[j] != offset_key@,
            decreases self.antichain.len() - i,
        {
            if self.antichain[i].0.same(offset_key) {
                return Some(i);
            }
            i += 1;
        }
        None
    }

    /// The position reached on the channel `offset_key`.
    pub fn get_offset(&self, offset_key: &OffsetKey) -> (r: Option<&OffsetValue>)
        requires
            self.wf(),
        ensures
            match r {
                Some(v) => self@.contains_key(offset_key@) && v@ == self@[offset_key@],
                None => !self@.contains_key(offset_key@),
            },
    {
        match self.place_of(offset_key) {
            Some(i) => {
                proof {
                    self.lemma_entry(i as int);
                }
                Some(&self.antichain[i].1)
            },
            None => None,
        }
    }

    /// Sets the position of the channel `offset_key` to `offset_value`,
    /// whatever was stored for it.
    pub fn advance_offset(&mut self, offset_key: OffsetKey, offset_value: OffsetValue)
        requires
            old(self).wf(),
        ensures
            final(self).wf(),
            final(self)@ == old(self)@.insert(offset_key@, offset_value@),
    {
        let ghost k = offset_key@;
        let ghost v = offset_value@;
        match self.place_of(&offset_key) {
            Some(i) => {
                self.antichain.remove(i);
                self.antichain.insert(i, (offset_key, offset_value));
                proof {
                    assert(self.keys() =~= old(self).keys());
                    assert forall|q: OffsetKeyView| self@.contains_key(q) implies self@[q] == old(
                        self,
                    )@.insert(k, v)[q] by {
                        let j = self.keys().index_of(q);
                        assert(self.keys().contains(q));
                        if j != i {
                            assert(self.values()[j] == old(self).values()[j]);
                        }
                    }
                    assert(self@ =~= old(self)@.insert(k, v));
                }
            },
            None => {
                self.antichain.push((offset_key, offset_value));
                proof {
                    assert(self.keys() =~= old(self).keys().push(k));
                    assert forall|q: OffsetKeyView| self@.contains_key(q) == old(self)@.insert(
                        k,
                        v,
                    ).contains_key(q) by {
                        if old(self).keys().contains(q) {
                            let j = old(self).keys().index_of(q);
                            assert(self.keys()[j] == q);
                        }
                        if q == k {
                            assert(self.keys()[self.keys().len() - 1] == k);
                        }
                        if self.keys().contains(q) && q != k {
                            let j = self.keys().index_of(q);
                            assert(old(self).keys()[j] == q);
                        }
                    }
                    assert forall|q: OffsetKeyView| self@.contains_key(q) implies self@[q] == old(
                        self,
                    )@.insert(k, v)[q] by {
                        let j = self.keys().index_of(q);
                        assert(self.keys().contains(q));
                        if q != k {
                            assert(old(self).keys()[j] == q);
                            let j0 = old(self).keys().index_of(q);
                            assert(old(self).keys().contains(q));
                            assert(self.keys()[j0] == q);
                            assert(self.values()[j] == old(self).values()[j]);
                        } else {
                            assert(self.keys()[self.keys().len() - 1] == k);
                        }
                    }
                    assert(self@ =~= old(self)@.insert(k, v));
                }
            },
        }
    }

    /// Whether two frontiers hold the same channels at the same positions.
    pub fn same(&self, other: &OffsetAntichain) -> (r: bool)
        requires
            self.wf(),
            other.wf(),
        ensures
            r == (self@ == other@),
    {
        if self.antichain.len() != other.antichain.len() {
            proof {
                if self@ == other@ {
                    assert(self@.dom() =~= self.keys().to_set());
                    assert(other@.dom() =~= other.keys().to_set());
                    self.keys().unique_seq_to_set();
                    other.keys().unique_seq_to_set();
                }
            }
            return false;
        }
        let mut i: usize = 0;
        while i < self.antichain.len()
            invariant
                i <= self.keys().len(),
                self.wf(),
                other.wf(),
                self.keys().len() == other.keys().len(),
                self.keys().len() == self.antichain.len(),
                forall|j: int|
                    0 <= j < i ==> other@.contains_key(#[trigger] self.keys()[j])
                        && other@[self.keys()[j]] == self@[self.keys()[j]],
            decreases self.keys().len() - i,
        {
            proof {
                self.lemma_entry(i as int);
            }
            match other.get_offset(&self.antichain[i].0) {
                Some(found) => {
                    if !self.antichain[i].1.same(found) {
                        return false;
                    }
                },
                None => {
                    return false;
                },
            }
            i += 1;
        }
        proof {
            assert forall|k: OffsetKeyView| self@.contains_key(k) implies other@.contains_key(k)
                && other@[k] == self@[k] by {
                let j = self.lemma_key_position(k);
                assert(self.keys()[j] == k);
            }
            assert(self@.dom() =~= self.keys().to_set());
            assert(other@.dom() =~= other.keys().to_set());
            self.keys().unique_seq_to_set();
            other.keys().unique_seq_to_set();
            vstd::seq_lib::seq_to_set_is_finite(self.keys());
            vstd::seq_lib::seq_to_set_is_finite(other.keys());
            assert(self@.dom().subset_of(other@.dom()));
            vstd::set_lib::lemma_subset_equality(self@.dom(), other@.dom());
            assert(self@ =~= other@);
        }
        true
    }
}

impl Clone for OffsetAntichain {
    fn clone(&self) -> (r: Self)
        ensures
            self.wf() ==> r.wf() && r@ == self@ && r.keys() == self.keys(),
    {
        let mut copy: Vec<(OffsetKey, OffsetValue)> = Vec::new();
        let mut i: usize = 0;
        while i < self.antichain.len()
            invariant
                i <= self.antichain.len(),
                copy.len() == i,
                forall|j: int|
                    0 <= j < i ==> (#[trigger] copy[j]).0@ == self.antichain[j].0@ && copy[j].1@
                        == self.antichain[j].1@,
            decreases self.antichain.len() - i,
        {
            copy.push((self.antichain[i].0.clone(), self.antichain[i].1.clone()));
            i += 1;
        }
        let r = OffsetAntichain { antichain: copy };
        proof {
            assert(r.keys() =~= self.keys());
            assert(r.values() =~= self.values());
        }
        r
    }
}

/// Merges two frontiers. For a channel that only one side holds the result
/// holds that side's position. For a channel that both hold it holds the
/// right position when that lies beyond the left one under the order of their
/// kind, and the left position otherwise: two positions of different kinds on
/// one channel are not ordered, and the left one stays.
pub fn merge_two_frontiers(lhs: &OffsetAntichain, rhs: &OffsetAntichain) -> (result:
    OffsetAntichain)
    requires
        lhs.wf(),
        rhs.wf(),
    ensures
        result.wf(),
        result@ == merged_frontier(lhs@, rhs@),
{
    let mut result = lhs.clone();
    let mut i: usize = 0;
    while i < rhs.len()
        invariant
            i <= rhs.keys().len(),
            lhs.wf(),
            rhs.wf(),
            result.wf(),
            forall|k: OffsetKeyView|
                result@.contains_key(k) <==> lhs@.contains_key(k) || rhs.keys().subrange(
                    0,
                    i as int,
                ).contains(k),
            forall|k: OffsetKeyView| #[trigger]
                result@.contains_key(k) ==> result@[k] == (if rhs.keys().subrange(
                    0,
                    i as int,
                ).contains(k) {
                    merged_frontier(lhs@, rhs@)[k]
                } else {
                    lhs@[k]
                }),
        decreases rhs.keys().len() - i,
    {
        let offset_key = rhs.key_at(i);
        let other_value = rhs.value_at(i);
        let ghost before = result@;
        let ghost seen = rhs.keys().subrange(0, i as int);
        proof {
            rhs.lemma_entry(i as int);
            assert(!seen.contains(offset_key@)) by {
                if seen.contains(offset_key@) {
                    let j = seen.index_of(offset_key@);
                    assert(rhs.keys()[j] == offset_key@);
                }
            }
        }
        let replace = match result.get_offset(offset_key) {
            Some(offset_value) => offset_value.is_behind(other_value),
            None => true,
        };
        if replace {
            result.advance_offset(offset_key.clone(), other_value.clone());
        }
        proof {
            let now = rhs.keys().subrange(0, i + 1);
            assert(now =~= seen.push(offset_key@));
            assert forall|k: OffsetKeyView| now.contains(k) <==> seen.contains(k) || k
                == offset_key@ by {
                if seen.contains(k) {
                    let j = seen.index_of(k);
                    assert(now[j] == k);
                }
                if k == offset_key@ {
                    assert(now[i as int] == k);
                }
                if now.contains(k) {
                    let j = now.index_of(k);
                    if j < i {
                        assert(seen[j] == k);
                    }
                }
            }
        }
        i += 1;
    }
    proof {
        assert(rhs.keys().subrange(0, rhs.keys().len() as int) =~= rhs.keys());
        assert(result@ =~= merged_frontier(lhs@, rhs@));
    }
    result
}

/// The content of each key of a list, in order.
pub open spec fn offset_keys_view(keys: Seq<OffsetKey>) -> Seq<OffsetKeyView> {
    Seq::new(keys.len(), |i: int| keys[i]@)
}

/// The channels, among the first `n` of `keys`, that a merge leaves at the
/// left position because the two sides hold positions for them that cannot
/// be compared.
pub open spec fn incomparable_among(
    lhs: Map<OffsetKeyView, OffsetValueView>,
    rhs: Map<OffsetKeyView, OffsetValueView>,
    keys: Seq<OffsetKeyView>,
    n: int,
) -> Seq<OffsetKeyView>
    decreases n,
{
    if n <= 0 {
        seq![]
    } else {
        let before = incomparable_among(lhs, rhs, keys, n - 1);
        let key = keys[n - 1];
        if lhs.contains_key(key) && rhs.contains_key(key) && !comparable(lhs[key], rhs[key]) {
            before.push(key)
        } else {
            before
        }
    }
}

/// The channels for which a merge of the two frontiers keeps the left
/// position because the two positions cannot be compared, in the order in
/// which the right frontier stores them. Such a channel points to a fault
/// in what was persisted, and the caller is to report it.
pub fn incomparable_offsets(lhs: &OffsetAntichain, rhs: &OffsetAntichain) -> (skipped: Vec<
    OffsetKey,
>)
    requires
        lhs.wf(),
        rhs.wf(),
    ensures
        offset_keys_view(skipped@) == incomparable_among(
            lhs@,
            rhs@,
            rhs.keys(),
            rhs.keys().len() as int,
        ),
{
    let mut skipped: Vec<OffsetKey> = Vec::new();
    let mut i: usize = 0;
    while i < rhs.len()
        invariant
            i <= rhs.keys().len(),
            lhs.wf(),
            rhs.wf(),
            offset_keys_view(skipped@) == incomparable_among(lhs@, rhs@, rhs.keys(), i as int),
        decreases rhs.keys().len() - i,
    {
        let offset_key = rhs.key_at(i);
        let other_value = rhs.value_at(i);
        let ghost before = offset_keys_view(skipped@);
        proof {
            rhs.lemma_entry(i as int);
        }
        let incomparable = match lhs.get_offset(offset_key) {
            Some(offset_value) => !offset_value.is_comparable_with(other_value),
            None => false,
        };
        if incomparable {
            skipped.push(offset_key.clone());
            assert(offset_keys_view(skipped@) =~= before.push(offset_key@));
        }
        i += 1;
    }
    skipped
}

/// A merge keeps the left position for exactly the channels that are
/// reported as incomparable, among those that both sides hold, unless the
/// right position lies beyond the left one.
pub proof fn lemma_incomparable_offsets_keep_left(
    lhs: Map<OffsetKeyView, OffsetValueView>,
    rhs: Map<OffsetKeyView, OffsetValueView>,
    keys: Seq<OffsetKeyView>,
    n: int,
    key: OffsetKeyView,
)
    requires
        0 <= n <= keys.len(),
    ensures
        incomparable_among(lhs, rhs, keys, n).contains(key) <==> {
            &&& keys.subrange(0, n).contains(key)
            &&& lhs.contains_key(key)
            &&& rhs.contains_key(key)
            &&& !comparable(lhs[key], rhs[key])
        },
        incomparable_among(lhs, rhs, keys, n).contains(key) ==> merged_frontier(lhs, rhs)[key]
            == lhs[key],
    decreases n,
{
    if n > 0 {
        lemma_incomparable_offsets_keep_left(lhs, rhs, keys, n - 1, key);
        let before = incomparable_among(lhs, rhs, keys, n - 1);
        let now = incomparable_among(lhs, rhs, keys, n);
        let last = keys[n - 1];
        let seen = keys.subrange(0, n - 1);
        let all = keys.subrange(0, n);
        assert(all =~= seen.push(last));
        assert(all.contains(key) <==> seen.contains(key) || key == last) by {
            if seen.contains(key) {
                let j = seen.index_of(key);
                assert(all[j] == key);
            }
            if key == last {
                assert(all[n - 1] == key);
            }
            if all.contains(key) {
                let j = all.index_of(key);
                if j < n - 1 {
                    assert(seen[j] == key);
                }
            }
        }
        if now != before {
            assert(now == before.push(last));
            assert(now.contains(key) <==> before.contains(key) || key == last) by {
                if before.contains(key) {
                    let j = before.index_of(key);
                    assert(now[j] == key);
                }
                if key == last {
                    assert(now[now.len() - 1] == key);
                }
                if now.contains(key) {
                    let j = now.index_of(key);
                    if j < before.len() {
                        assert(before[j] == key);
                    }
                }
            }
        }
    }
}

/// The kind of source a frontier belongs to.
#[derive(Clone, Copy, Debug, PartialEq, Eq, Structural)]
pub enum StorageType {
    FileSystem,
    S3Csv,
    S3Lines,
    CsvFilesystem,
    Kafka,
    Python,
    Sqlite,
}

impl StorageType {
    /// Merges two frontiers of a source of this kind. Every kind of source
    /// merges by the same rule, that of [`merge_two_frontiers`].
    pub fn merge_two_frontiers(&self, lhs: &OffsetAntichain, rhs: &OffsetAntichain) -> (result:
        OffsetAntichain)
        requires
            lhs.wf(),
            rhs.wf(),
        ensures
            result.wf(),
            result@ == merged_frontier(lhs@, rhs@),
    {
        match self {
            StorageType::FileSystem => merge_two_frontiers(lhs, rhs),
            StorageType::S3Csv => merge_two_frontiers(lhs, rhs),
            StorageType::CsvFilesystem => merge_two_frontiers(lhs, rhs),
            StorageType::Kafka => merge_two_frontiers(lhs, rhs),
            StorageType::Python => merge_two_frontiers(lhs, rhs),
            StorageType::S3Lines => merge_two_frontiers(lhs, rhs),
            StorageType::Sqlite => merge_two_frontiers(lhs, rhs),
        }
    }
}

/// Two positions on which a merge does not depend on the side they come from:
/// they are the same, or one lies strictly beyond the other.
pub open spec fn merge_symmetric(a: OffsetValueView, b: OffsetValueView) -> bool {
    a == b || advances(a, b) || advances(b, a)
}

/// Merging is commutative on frontiers whose common channels hold positions
/// that are the same or strictly ordered.
pub proof fn lemma_merge_commutative(
    a: Map<OffsetKeyView, OffsetValueView>,
    b: Map<OffsetKeyView, OffsetValueView>,
)
    requires
        forall|k: OffsetKeyView|
            a.contains_key(k) && b.contains_key(k) ==> merge_symmetric(#[trigger] a[k], b[k]),
    ensures
        merged_frontier(a, b) == merged_frontier(b, a),
{
    assert forall|k: OffsetKeyView| #[trigger]
        merged_frontier(a, b).contains_key(k) implies merged_frontier(a, b)[k] == merged_frontier(
        b,
        a,
    )[k] by {
        if a.contains_key(k) && b.contains_key(k) {
            assert(merge_symmetric(a[k], b[k]));
        }
    }
    assert(merged_frontier(a, b) =~= merged_frontier(b, a));
}

/// On a channel that both frontiers hold with comparable positions, the merge
/// holds one of the two, and its position is the larger of both.
pub proof fn lemma_merge_is_maximum(
    a: Map<OffsetKeyView, OffsetValueView>,
    b: Map<OffsetKeyView, OffsetValueView>,
    k: OffsetKeyView,
)
    requires
        a.contains_key(k),
        b.contains_key(k),
        comparable(a[k], b[k]),
    ensures
        merged_frontier(a, b).contains_key(k),
        merged_frontier(a, b)[k] == a[k] || merged_frontier(a, b)[k] == b[k],
        position_of(merged_frontier(a, b)[k]).unwrap() >= position_of(a[k]).unwrap(),
        position_of(merged_frontier(a, b)[k]).unwrap() >= position_of(b[k]).unwrap(),
{
}

/// On a channel that both frontiers hold with positions that cannot be
/// compared, the merge keeps the left one.
pub proof fn lemma_merge_keeps_left(
    a: Map<OffsetKeyView, OffsetValueView>,
    b: Map<OffsetKeyView, OffsetValueView>,
    k: OffsetKeyView,
)
    requires
        a.contains_key(k),
        b.contains_key(k),
        !comparable(a[k], b[k]),
    ensures
        merged_frontier(a, b)[k] == a[k],
{
}

/// Merging is associative on frontiers whose positions on any one channel are
/// all comparable.
pub proof fn lemma_merge_associative(
    a: Map<OffsetKeyView, OffsetValueView>,
    b: Map<OffsetKeyView, OffsetValueView>,
    c: Map<OffsetKeyView, OffsetValueView>,
)
    requires
        forall|k: OffsetKeyView|
            a.contains_key(k) && b.contains_key(k) ==> comparable(#[trigger] a[k], b[k]),
        forall|k: OffsetKeyView|
            b.contains_key(k) && c.contains_key(k) ==> comparable(#[trigger] b[k], c[k]),
        forall|k: OffsetKeyView|
            a.contains_key(k) && c.contains_key(k) ==> comparable(#[trigger] a[k], c[k]),
    ensures
        merged_frontier(merged_frontier(a, b), c) == merged_frontier(a, merged_frontier(b, c)),
{
    let left = merged_frontier(merged_frontier(a, b), c);
    let right = merged_frontier(a, merged_frontier(b, c));
    assert forall|k: OffsetKeyView| #[trigger] left.contains_key(k) implies left[k] == right[k] by {
        if a.contains_key(k) && b.contains_key(k) {
            assert(comparable(a[k], b[k]));
        }
        if b.contains_key(k) && c.contains_key(k) {
            assert(comparable(b[k], c[k]));
        }
        if a.contains_key(k) && c.contains_key(k) {
            assert(comparable(a[k], c[k]));
        }
    }
    assert(left =~= right);
}

} // verus!
