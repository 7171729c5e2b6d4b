//! Migration progress per message type, as the migrator reports it.
use vstd::prelude::*;
use crate::percent::{Percent, HUNDRED_BITS, FIFTY_BITS, min_bits, at_least_bits, clamped_whole, is_nan_bits, order_key};
use crate::text::push_char;

verus! {

/// The kinds of message the migrator copies, in their order.
#[derive(Clone, Copy, Debug, PartialEq, Eq, Structural, PartialOrd, Ord, Hash)]
pub enum MessageType {
    CommitMessages,
    GroupMessages,
    KeyPackages,
    InboxLog,
}

/// The position of a message type in the declared order.
pub open spec fn rank(t: MessageType) -> int {
    match t {
        MessageType::CommitMessages => 0,
        MessageType::GroupMessages => 1,
        MessageType::KeyPackages => 2,
        MessageType::InboxLog => 3,
    }
}

/// The name the metrics and the API use for a message type.
pub open spec fn label_of(t: MessageType) -> Seq<char> {
    match t {
        MessageType::CommitMessages => "commit_messages"@,
        MessageType::GroupMessages => "group_messages"@,
        MessageType::KeyPackages => "key_packages"@,
        MessageType::InboxLog => "inbox_log"@,
    }
}

impl MessageType {
    /// The name of this message type.
    pub fn label(&self) -> (s: &'static str)
        ensures
            s@ == label_of(*self),
    {
        match self {
            MessageType::CommitMessages => "commit_messages",
            MessageType::GroupMessages => "group_messages",
            MessageType::KeyPackages => "key_packages",
            MessageType::InboxLog => "inbox_log",
        }
    }

    /// [`rank`], executable.
    pub fn rank(&self) -> (r: u8)
        ensures
            r == rank(*self),
    {
        match self {
            MessageType::CommitMessages => 0,
            MessageType::GroupMessages => 1,
            MessageType::KeyPackages => 2,
            MessageType::InboxLog => 3,
        }
    }
}

/// Progress of one message type.
#[derive(Clone, Copy, Debug, PartialEq, Eq, Structural)]
pub struct MessageTypeProgress {
    pub source_seq: u64,
    pub dest_seq: u64,
    pub percent: Percent,
}

/// Whether each kind ranks strictly before the next.
pub open spec fn kinds_ascending(kinds: Seq<MessageType>) -> bool {
    forall|i: int| 0 <= i < kinds.len() - 1 ==> rank(#[trigger] kinds[i]) < rank(kinds[i + 1])
}

/// Progress entries keyed by message type, in message type order
/// (as a `BTreeMap<MessageType, MessageTypeProgress>` keeps them).
#[derive(Clone, Debug)]
pub struct ProgressMap {
    entries: Vec<(MessageType, MessageTypeProgress)>,
}

impl ProgressMap {
    /// The message types held, in order.
    pub closed spec fn kinds(&self) -> Seq<MessageType> {
        Seq::new(self.entries@.len(), |i: int| self.entries@[i].0)
    }

    /// The progress entries, in the same order.
    pub closed spec fn items(&self) -> Seq<MessageTypeProgress> {
        Seq::new(self.entries@.len(), |i: int| self.entries@[i].1)
    }

    /// Strictly ascending kinds.
    pub closed spec fn wf(&self) -> bool {
        kinds_ascending(self.kinds())
    }

    /// Ascending kinds never repeat.
    pub proof fn lemma_distinct(&self)
        requires
            self.wf(),
        ensures
            self.kinds().len() == self.items().len(),
            forall|i: int, j: int|
                0 <= i < j < self.kinds().len() ==> rank(#[trigger] self.kinds()[i]) < rank(
                    #[trigger] self.kinds()[j],
                ),
            self.kinds().no_duplicates(),
    {
        assert forall|i: int, j: int|
            0 <= i < j < self.kinds().len() implies rank(#[trigger] self.kinds()[i]) < rank(
            #[trigger] self.kinds()[j],
        ) by {
            self.lemma_ascending_from(i, j);
        }
    }

    proof fn lemma_ascending_from(&self, i: int, j: int)
        requires
            self.wf(),
            0 <= i < j < self.kinds().len(),
        ensures
            rank(self.kinds()[i]) < rank(self.kinds()[j]),
        decreases j - i,
    {
        if j > i + 1 {
            self.lemma_ascending_from(i, j - 1);
        }
    }

    /// The entries as a mathematical map.
    pub closed spec fn as_map(&self) -> Map<MessageType, MessageTypeProgress> {
        map_of(self.kinds(), self.items())
    }

    /// The view ties kinds, items and the mathematical map together.
    pub proof fn lemma_view(&self)
        requires
            self.wf(),
        ensures
            forall|t: MessageType| self@.contains_key(t) <==> self.kinds().contains(t),
            forall|i: int| 0 <= i < self.kinds().len() ==> #[trigger] self@[self.kinds()[i]] == self.items()[i],
    {
        self.lemma_distinct();
        assert forall|i: int| 0 <= i < self.kinds().len() implies #[trigger] self@[self.kinds()[i]] == self.items()[i] by {
            let k = self.kinds()[i];
            assert(self.kinds().contains(k));
            let j = self.kinds().index_of(k);
            assert(self.kinds()[j] == k);
        }
    }

    /// No entries.
    pub fn new() -> (m: Self)
        ensures
            m.wf(),
            m.kinds().len() == 0,
            m@ == Map::<MessageType, MessageTypeProgress>::empty(),
    {
        let m = ProgressMap { entries: Vec::new() };
        assert(m.kinds() =~= Seq::<MessageType>::empty());
        assert(m@ =~= Map::<MessageType, MessageTypeProgress>::empty());
        m
    }

    /// The number of entries.
    pub fn len(&self) -> (n: usize)
        ensures
            n == self.kinds().len(),
    {
        self.entries.len()
    }

    /// An equal copy.
    pub fn copy(&self) -> (c: Self)
        ensures
            c.kinds() == self.kinds(),
            c.items() == self.items(),
            c@ == self@,
            c.wf() == self.wf(),
    {
        let mut entries: Vec<(MessageType, MessageTypeProgress)> = Vec::new();
        let mut i: usize = 0;
        while i < self.entries.len()
            invariant
                i <= self.entries.len(),
                entries@ == self.entries@.take(i as int),
            decreases self.entries.len() - i,
        {
            entries.push(self.entries[i]);
            assert(entries@ =~= self.entries@.take(i + 1));
            i += 1;
        }
        assert(entries@ =~= self.entries@);
        let c = ProgressMap { entries };
        assert(c.kinds() =~= self.kinds());
        assert(c.items() =~= self.items());
        c
    }

    /// Whether there are no entries (`BTreeMap::is_empty`).
    pub fn is_empty(&self) -> (r: bool)
        ensures
            r == (self.kinds().len() == 0),
    {
        self.entries.len() == 0
    }

    /// The `i`-th entry in message type order.
    pub fn entry(&self, i: usize) -> (e: (MessageType, MessageTypeProgress))
        requires
            i < self.kinds().len(),
        ensures
            e.0 == self.kinds()[i as int],
            e.1 == self.items()[i as int],
    {
        self.entries[i]
    }

    /// The position of `kind`, if held.
    pub fn position(&self, kind: MessageType) -> (p: Option<usize>)
        ensures
            p matches Some(i) ==> i < self.kinds().len() && self.kinds()[i as int] == kind,
            p is None ==> !self.kinds().contains(kind),
    {
        let mut i: usize = 0;
        while i < self.entries.len()
            invariant
                i <= self.entries.len(),
                forall|j: int| 0 <= j < i ==> self.kinds()[j] != kind,
            decreases self.entries.len() - i,
        {
            if self.entries[i].0.rank() == kind.rank() {
                assert(self.kinds()[i as int] == kind);
                return Some(i);
            }
            i += 1;
        }
        None
    }

    /// The progress of `kind`, if held.
    pub fn get(&self, kind: MessageType) -> (r: Option<MessageTypeProgress>)
        requires
            self.wf(),
        ensures
            r == (if self@.contains_key(kind) { Some(self@[kind]) } else { None }),
    {
        proof { self.lemma_view(); }
        match self.position(kind) {
            Some(i) => {
                assert(self.kinds()[i as int] == kind && self.items()[i as int] == self.entries@[i as int].1);
                Some(self.entries[i].1)
            },
            None => None,
        }
    }

    /// Sets the progress of `kind`, replacing an earlier one (`BTreeMap::insert`).
    pub fn insert(&mut self, kind: MessageType, progress: MessageTypeProgress)
        requires
            old(self).wf(),
        ensures
            final(self).wf(),
            final(self)@ == old(self)@.insert(kind, progress),
            old(self).kinds().contains(kind) ==> {
                &&& final(self).kinds() == old(self).kinds()
                &&& final(self).items() == old(self).items().update(
                    old(self).kinds().index_of(kind),
                    progress,
                )
            },
            !old(self).kinds().contains(kind) ==> exists|p: int|
                0 <= p <= old(self).kinds().len() && final(self).kinds() == old(self).kinds().insert(
                    p,
                    kind,
                ) && final(self).items() == old(self).items().insert(p, progress),
    {
        let ghost ok = self.kinds();
        let ghost oi = self.items();
        proof { self.lemma_distinct(); }
        match self.position(kind) {
            Some(i) => {
                self.entries.set(i, (kind, progress));
                assert(ok[ok.index_of(kind)] == kind);
                assert(ok.index_of(kind) == i);
                assert(self.kinds() =~= ok);
                assert(self.items() =~= oi.update(i as int, progress));
                proof { lemma_map_update(ok, oi, i as int, progress); }
            },
            None => {
                let mut p: usize = 0;
                while p < self.entries.len() && self.entries[p].0.rank() < kind.rank()
                    invariant
                        p <= self.entries.len(),
                        self.kinds() == ok,
                        forall|j: int| 0 <= j < p ==> rank(#[trigger] ok[j]) < rank(kind),
                    decreases self.entries.len() - p,
                {
                    p += 1;
                }
                self.entries.insert(p, (kind, progress));
                proof {
                    let nk = self.kinds();
                    assert(nk =~= ok.insert(p as int, kind));
                    assert(self.items() =~= oi.insert(p as int, progress));
                    lemma_map_insert(ok, oi, p as int, kind, progress);
                    if p < ok.len() {
                        assert(rank(ok[p as int]) != rank(kind)) by {
                            if rank(ok[p as int]) == rank(kind) {
                                assert(ok[p as int] == kind);
                            }
                        }
                    }
                    assert forall|i: int| 0 <= i < nk.len() - 1 implies rank(#[trigger] nk[i]) < rank(nk[i + 1]) by {
                        if i < p - 1 {
                            assert(nk[i] == ok[i] && nk[i + 1] == ok[i + 1]);
                        } else if i == p - 1 {
                        } else if i == p {
                        } else {
                            assert(nk[i] == ok[i - 1] && nk[i + 1] == ok[i]);
                        }
                    }
                }
            },
        }
    }

    /// Sets the sequence numbers of `kind` when it is held; otherwise changes nothing.
    pub fn set_sequence(&mut self, kind: MessageType, value: u64, source: bool)
        requires
            old(self).wf(),
        ensures
            final(self).wf(),
            final(self).kinds() == old(self).kinds(),
            final(self)@ == (if old(self)@.contains_key(kind) {
                old(self)@.insert(kind, with_sequence(old(self)@[kind], value, source))
            } else {
                old(self)@
            }),
            forall|i: int|
                0 <= i < old(self).kinds().len() ==> #[trigger] final(self).items()[i] == if old(
                    self,
                ).kinds()[i] == kind {
                    if source {
                        MessageTypeProgress { source_seq: value, ..old(self).items()[i] }
                    } else {
                        MessageTypeProgress { dest_seq: value, ..old(self).items()[i] }
                    }
                } else {
                    old(self).items()[i]
                },
    {
        let ghost ok = self.kinds();
        let ghost oi = self.items();
        proof { self.lemma_distinct(); }
        match self.position(kind) {
            Some(i) => {
                let (k, mut pr) = self.entries[i];
                if source {
                    pr.source_seq = value;
                } else {
                    pr.dest_seq = value;
                }
                self.entries.set(i, (k, pr));
                assert(self.kinds() =~= ok);
                assert(self.items() =~= oi.update(i as int, pr));
                proof {
                    lemma_map_update(ok, oi, i as int, pr);
                    old(self).lemma_view();
                    assert(old(self)@[ok[i as int]] == oi[i as int]);
                }
                assert forall|j: int| 0 <= j < ok.len() && j != i implies ok[j] != kind by {
                    assert(ok[j] != ok[i as int]);
                }
            },
            None => {
                proof { old(self).lemma_view(); }
                assert(self@ =~= old(self)@);
            },
        }
    }
}

/// The map that kinds and their items make.
pub open spec fn map_of(ks: Seq<MessageType>, is: Seq<MessageTypeProgress>) -> Map<MessageType, MessageTypeProgress> {
    Map::new(|t: MessageType| ks.contains(t), |t: MessageType| is[ks.index_of(t)])
}

proof fn lemma_map_at(ks: Seq<MessageType>, is: Seq<MessageTypeProgress>, i: int)
    requires
        ks.no_duplicates(),
        0 <= i < ks.len(),
    ensures
        map_of(ks, is).contains_key(ks[i]),
        map_of(ks, is)[ks[i]] == is[i],
{
    assert(ks.contains(ks[i]));
    let j = ks.index_of(ks[i]);
    assert(ks[j] == ks[i]);
}

proof fn lemma_map_update(ks: Seq<MessageType>, is: Seq<MessageTypeProgress>, i: int, v: MessageTypeProgress)
    requires
        ks.no_duplicates(),
        ks.len() == is.len(),
        0 <= i < ks.len(),
    ensures
        map_of(ks, is.update(i, v)) == map_of(ks, is).insert(ks[i], v),
{
    let a = map_of(ks, is.update(i, v));
    let b = map_of(ks, is).insert(ks[i], v);
    assert forall|q: MessageType| #[trigger] a.contains_key(q) implies a[q] == b[q] by {
        let j = ks.index_of(q);
        assert(ks[j] == q);
        lemma_map_at(ks, is.update(i, v), j);
        lemma_map_at(ks, is, j);
    }
    assert(a =~= b);
}

proof fn lemma_map_insert(ks: Seq<MessageType>, is: Seq<MessageTypeProgress>, p: int, k: MessageType, v: MessageTypeProgress)
    requires
        ks.no_duplicates(),
        !ks.contains(k),
        0 <= p <= ks.len(),
        ks.len() == is.len(),
    ensures
        map_of(ks.insert(p, k), is.insert(p, v)) == map_of(ks, is).insert(k, v),
{
    let nk = ks.insert(p, k);
    let ni = is.insert(p, v);
    assert(nk.no_duplicates()) by {
        assert forall|x: int, y: int| 0 <= x < nk.len() && 0 <= y < nk.len() && x != y implies nk[x] != nk[y] by {
            if x != p && y != p {
                let xo = if x < p { x } else { x - 1 };
                let yo = if y < p { y } else { y - 1 };
                assert(nk[x] == ks[xo] && nk[y] == ks[yo]);
            } else if x == p {
                let yo = if y < p { y } else { y - 1 };
                assert(nk[y] == ks[yo]);
            } else {
                let xo = if x < p { x } else { x - 1 };
                assert(nk[x] == ks[xo]);
            }
        }
    }
    let a = map_of(nk, ni);
    let b = map_of(ks, is).insert(k, v);
    assert forall|q: MessageType| #[trigger] a.contains_key(q) == b.contains_key(q) by {
        if q != k {
            if ks.contains(q) {
                let j = ks.index_of(q);
                assert(ks[j] == q);
                if j < p { assert(nk[j] == q); } else { assert(nk[j + 1] == q); }
            }
            if nk.contains(q) {
                let j = nk.index_of(q);
                assert(nk[j] == q);
                if j < p { assert(ks[j] == q); } else { assert(ks[j - 1] == q); }
            }
        } else {
            assert(nk[p] == k);
        }
    }
    assert forall|q: MessageType| #[trigger] a.contains_key(q) implies a[q] == b[q] by {
        let j = nk.index_of(q);
        assert(nk[j] == q);
        lemma_map_at(nk, ni, j);
        if j < p {
            lemma_map_at(ks, is, j);
        } else if j > p {
            lemma_map_at(ks, is, j - 1);
        }
    }
    assert(a =~= b);
}

impl View for ProgressMap {
    type V = Map<MessageType, MessageTypeProgress>;

    closed spec fn view(&self) -> Map<MessageType, MessageTypeProgress> {
        self.as_map()
    }
}

/// A progress entry with its source (`source`) or destination sequence id set.
pub open spec fn with_sequence(p: MessageTypeProgress, value: u64, source: bool) -> MessageTypeProgress {
    if source {
        MessageTypeProgress { source_seq: value, ..p }
    } else {
        MessageTypeProgress { dest_seq: value, ..p }
    }
}

/// The fold `reduce(f64::min)` over a non-empty run of percentages.
pub open spec fn fold_min(s: Seq<u64>) -> u64
    decreases s.len(),
{
    if s.len() <= 1 {
        s[0]
    } else {
        min_bits(fold_min(s.drop_last()), s.last())
    }
}

/// The lowest percentage, or `0.0` when there is none (`reduce(f64::min).unwrap_or(0.0)`).
pub open spec fn min_of(s: Seq<u64>) -> u64 {
    if s.len() == 0 {
        0
    } else {
        fold_min(s)
    }
}

/// The progress bar: `[`, one `█` per five whole percent, `░` for the rest of
/// twenty cells, `]`.
pub open spec fn bar_text(whole: int) -> Seq<char> {
    let filled = whole / 5;
    seq!['['] + Seq::new(filled as nat, |i: int| '\u{2588}') + Seq::new(
        (20 - filled) as nat,
        |i: int| '\u{2591}',
    ) + seq![']']
}

/// The colour of a progress bar: green at 100, yellow from 50, red below or NaN.
pub open spec fn bar_colour(b: u64) -> Seq<char> {
    if at_least_bits(b, HUNDRED_BITS) {
        "#0f0"@
    } else if at_least_bits(b, FIFTY_BITS) {
        "#ff0"@
    } else {
        "#f66"@
    }
}

/// Progress of the migration, per message type.
#[derive(Clone, Debug)]
pub struct MigrationState {
    pub message_types: ProgressMap,
}

impl MigrationState {
    /// The percentages, in message type order.
    pub open spec fn percents(&self) -> Seq<u64> {
        self.message_types.items().map_values(|p: MessageTypeProgress| p.percent.bits)
    }

    /// An equal copy.
    pub fn copy(&self) -> (c: Self)
        ensures
            c.message_types.kinds() == self.message_types.kinds(),
            c.message_types.items() == self.message_types.items(),
            c.message_types@ == self.message_types@,
            c.message_types.wf() == self.message_types.wf(),
    {
        MigrationState { message_types: self.message_types.copy() }
    }

    /// An empty state (`MigrationState::default()`).
    pub fn default() -> (m: Self)
        ensures
            m.message_types.wf(),
            m.message_types.kinds().len() == 0,
            m.message_types@ == Map::<MessageType, MessageTypeProgress>::empty(),
    {
        MigrationState { message_types: ProgressMap::new() }
    }

    /// Whether the migrator has reported any progress yet.
    pub fn progress(&self) -> (r: bool)
        ensures
            r == (self.message_types.kinds().len() > 0),
    {
        !self.message_types.is_empty()
    }

    /// Lowest progress across all message types (0.0 if none yet).
    pub fn min_percent(&self) -> (p: Percent)
        ensures
            p.bits == min_of(self.percents()),
    {
        let n = self.message_types.len();
        if n == 0 {
            return Percent::zero();
        }
        let mut acc = self.message_types.entry(0).1.percent;
        let mut i: usize = 1;
        proof {
            assert(self.percents().take(1).len() == 1);
        }
        while i < n
            invariant
                1 <= i <= n,
                n == self.message_types.kinds().len(),
                self.percents().len() == n,
                acc.bits == fold_min(self.percents().take(i as int)),
            decreases n - i,
        {
            let next = self.message_types.entry(i).1.percent;
            acc = acc.min(next);
            proof {
                let t = self.percents().take(i + 1);
                assert(t.drop_last() =~= self.percents().take(i as int));
                assert(t.last() == next.bits);
            }
            i += 1;
        }
        assert(self.percents().take(n as int) =~= self.percents());
        acc
    }

    /// All message types at 100%.
    pub fn all_complete(&self) -> (r: bool)
        ensures
            r == (self.message_types.kinds().len() > 0 && at_least_bits(
                min_of(self.percents()),
                HUNDRED_BITS,
            )),
    {
        self.progress() && self.min_percent().at_least(HUNDRED_BITS)
    }

    /// Whether migration counts as finished at `now_ns` for a cutover at `cutover_ns`:
    /// every message type at 100%, or no progress reported more than five
    /// minutes after cutover.
    pub fn done(&self, cutover_ns: u64, now_ns: u64) -> (r: bool)
        ensures
            r == done_at(self.message_types.kinds().len() > 0, min_of(self.percents()), cutover_ns, now_ns),
    {
        if self.all_complete() {
            return true;
        }
        if !self.progress() {
            if now_ns.saturating_sub(cutover_ns) > NO_METRICS_TIMEOUT_NS {
                return true;
            }
        }
        false
    }

    /// The progress bar for a percentage.
    pub fn progress_bar(percent: Percent) -> (s: String)
        ensures
            s@ == bar_text(clamped_whole(percent.bits)),
    {
        let pct = percent.clamped_whole();
        let filled = pct / 5;
        let empty = 20 - filled;
        let mut s = String::new();
        push_char(&mut s, '[');
        let mut i: u32 = 0;
        while i < filled
            invariant
                i <= filled,
                s@ == seq!['['] + Seq::new(i as nat, |j: int| '\u{2588}'),
            decreases filled - i,
        {
            push_char(&mut s, '\u{2588}');
            i += 1;
            assert(s@ =~= seq!['['] + Seq::new(i as nat, |j: int| '\u{2588}'));
        }
        let mut k: u32 = 0;
        while k < empty
            invariant
                k <= empty,
                s@ == seq!['['] + Seq::new(filled as nat, |j: int| '\u{2588}') + Seq::new(
                    k as nat,
                    |j: int| '\u{2591}',
                ),
            decreases empty - k,
        {
            push_char(&mut s, '\u{2591}');
            k += 1;
            assert(s@ =~= seq!['['] + Seq::new(filled as nat, |j: int| '\u{2588}') + Seq::new(
                k as nat,
                |j: int| '\u{2591}',
            ));
        }
        push_char(&mut s, ']');
        assert(s@ =~= bar_text(clamped_whole(percent.bits)));
        s
    }

    /// The colour of the progress bar for a percentage.
    pub fn bar_color(percent: Percent) -> (c: &'static str)
        ensures
            c@ == bar_colour(percent.bits),
    {
        if percent.at_least(HUNDRED_BITS) {
            "#0f0"
        } else if percent.at_least(FIFTY_BITS) {
            "#ff0"
        } else {
            "#f66"
        }
    }
}

/// Whether some percentage is not a NaN.
pub open spec fn some_number(s: Seq<u64>) -> bool {
    exists|i: int| 0 <= i < s.len() && !is_nan_bits(#[trigger] s[i])
}

/// The lowest percentage is one of them; it is a NaN only when all are; and it
/// is at or below every percentage that is not a NaN. With none, it is `0.0`.
pub proof fn lemma_min_of(s: Seq<u64>)
    ensures
        s.len() == 0 ==> min_of(s) == 0,
        s.len() > 0 ==> s.contains(min_of(s)),
        s.len() > 0 && !some_number(s) ==> is_nan_bits(min_of(s)),
        some_number(s) ==> !is_nan_bits(min_of(s)) && forall|i: int|
            0 <= i < s.len() && !is_nan_bits(#[trigger] s[i]) ==> order_key(min_of(s)) <= order_key(s[i]),
    decreases s.len(),
{
    if s.len() == 1 {
        assert(s[0] == fold_min(s));
    } else if s.len() > 1 {
        let d = s.drop_last();
        lemma_min_of(d);
        let a = fold_min(d);
        let b = s.last();
        assert(min_of(d) == a);
        let ia = choose|i: int| 0 <= i < d.len() && d[i] == a;
        assert(s[ia] == a);
        assert(s[s.len() - 1] == b);
        if some_number(s) {
            let w = choose|i: int| 0 <= i < s.len() && !is_nan_bits(#[trigger] s[i]);
            if w < s.len() - 1 {
                assert(d[w] == s[w]);
                assert(some_number(d));
            }
            assert forall|i: int| 0 <= i < s.len() && !is_nan_bits(#[trigger] s[i])
                implies order_key(min_of(s)) <= order_key(s[i]) by {
                if i < s.len() - 1 {
                    assert(d[i] == s[i]);
                }
            }
        } else {
            assert(!some_number(d)) by {
                if some_number(d) {
                    let w = choose|i: int| 0 <= i < d.len() && !is_nan_bits(#[trigger] d[i]);
                    assert(s[w] == d[w]);
                }
            }
        }
    }
}

/// "All message types at 100%": migration is complete exactly when progress
/// has been reported, some percentage is a number, and every percentage that
/// is a number is at least 100 (NaN readings are passed over, as `f64::min`
/// passes them over).
pub proof fn lemma_all_complete(m: MigrationState)
    ensures
        (m.message_types.kinds().len() > 0 && at_least_bits(min_of(m.percents()), HUNDRED_BITS)) <==> (
            m.message_types.kinds().len() > 0 && some_number(m.percents()) && forall|i: int|
                0 <= i < m.percents().len() && !is_nan_bits(#[trigger] m.percents()[i]) ==> order_key(
                    m.percents()[i],
                ) >= order_key(HUNDRED_BITS)),
{
    let s = m.percents();
    lemma_min_of(s);
    if m.message_types.kinds().len() > 0 && at_least_bits(min_of(s), HUNDRED_BITS) {
        assert(s.len() > 0);
        if !some_number(s) {
            assert(is_nan_bits(min_of(s)));
        }
    }
    if m.message_types.kinds().len() > 0 && some_number(s) && forall|i: int|
        0 <= i < s.len() && !is_nan_bits(#[trigger] s[i]) ==> order_key(s[i]) >= order_key(HUNDRED_BITS) {
        let j = choose|i: int| 0 <= i < s.len() && s[i] == min_of(s);
        assert(!is_nan_bits(s[j]));
    }
}

/// Five minutes in nanoseconds: with no metrics from the migrator for this long
/// after cutover, migration is assumed done.
pub const NO_METRICS_TIMEOUT_NS: u64 = 300_000_000_000;

/// Whether migration counts as finished (see [`MigrationState::done`]).
pub open spec fn done_at(progress: bool, min: u64, cutover_ns: u64, now_ns: u64) -> bool {
    ||| (progress && at_least_bits(min, HUNDRED_BITS))
    ||| (!progress && now_ns > cutover_ns && now_ns - cutover_ns > NO_METRICS_TIMEOUT_NS)
}

} // verus!
