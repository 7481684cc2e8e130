use vstd::prelude::*;

verus! {

/// Nanoseconds in one day.
pub const NANOS_PER_DAY: i128 = 86_400_000_000_000;

/// What the walk learned of an entry's modification time.
#[derive(Clone, Copy, Debug, PartialEq, Eq, Structural)]
pub enum ModTime {
    /// Nanoseconds relative to the Unix epoch (negative before it).
    At(i128),
    /// The platform cannot report modification times at all.
    Unsupported,
    /// The time could not be read for some other reason.
    Unavailable,
}

/// One entry met while walking a build-output directory.
#[derive(Clone, Copy, Debug, PartialEq, Eq, Structural)]
pub enum EntryReport {
    /// The entry's metadata was read.
    Meta { modified: ModTime, is_file: bool, len: u64 },
    /// The platform cannot report metadata at all.
    MetaUnsupported,
    /// The metadata could not be read for an ordinary I/O reason.
    MetaFailed,
    /// The walk could not produce the entry; it is skipped.
    WalkFailed,
}

/// Whether a build-output directory may be reclaimed, and how many bytes it holds.
#[derive(Clone, Copy, Debug, PartialEq, Eq, Structural)]
pub enum CutoffDecision {
    Eligible(u64),
    NotEligible,
}

/// The outcome of evaluating a directory: a decision, or the finding that this
/// platform cannot tell file ages, which ends the whole run.
#[derive(Clone, Copy, Debug, PartialEq, Eq, Structural)]
pub enum Evaluation {
    Decided(CutoffDecision),
    Fatal,
}

/// Progress of a walk: still summing bytes, or already settled.
#[derive(Clone, Copy, Debug, PartialEq, Eq, Structural)]
pub enum WalkState {
    Running(u64),
    Stopped(Evaluation),
}

/// Addition that stays at `u64::MAX` instead of overflowing.
pub open spec fn sat_add(a: u64, b: u64) -> u64 {
    if a + b > u64::MAX {
        u64::MAX
    } else {
        (a + b) as u64
    }
}

/// The effect of one entry on a walk that has summed `total` bytes so far.
pub open spec fn absorb(total: u64, e: EntryReport, cutoff: i128) -> WalkState {
    match e {
        EntryReport::Meta { modified, is_file, len } => {
            if modified == ModTime::Unsupported {
                WalkState::Stopped(Evaluation::Fatal)
            } else if is_file && modified is At && modified->At_0 > cutoff {
                WalkState::Stopped(Evaluation::Decided(CutoffDecision::NotEligible))
            } else if is_file {
                WalkState::Running(sat_add(total, len))
            } else {
                WalkState::Running(total)
            }
        },
        EntryReport::MetaUnsupported => WalkState::Stopped(Evaluation::Fatal),
        EntryReport::MetaFailed => WalkState::Stopped(Evaluation::Decided(CutoffDecision::NotEligible)),
        EntryReport::WalkFailed => WalkState::Running(total),
    }
}

/// The state of a walk after the given entries, in order.
pub open spec fn walk_state(entries: Seq<EntryReport>, cutoff: i128) -> WalkState
    decreases entries.len(),
{
    if entries.len() == 0 {
        WalkState::Running(0)
    } else {
        match walk_state(entries.drop_last(), cutoff) {
            WalkState::Running(t) => absorb(t, entries.last(), cutoff),
            WalkState::Stopped(r) => WalkState::Stopped(r),
        }
    }
}

/// The evaluation of a directory whose walk yields exactly `entries`.
pub open spec fn evaluation_of(entries: Seq<EntryReport>, cutoff: i128) -> Evaluation {
    match walk_state(entries, cutoff) {
        WalkState::Running(t) => Evaluation::Decided(CutoffDecision::Eligible(t)),
        WalkState::Stopped(r) => r,
    }
}

/// Bytes held by the regular files among `entries`, summed without overflow.
pub open spec fn file_bytes(entries: Seq<EntryReport>) -> u64
    decreases entries.len(),
{
    if entries.len() == 0 {
        0
    } else {
        let e = entries.last();
        let rest = file_bytes(entries.drop_last());
        if e is Meta && e->is_file {
            sat_add(rest, e->len)
        } else {
            rest
        }
    }
}

/// The entry was read, the platform reported its age, and it is not a regular
/// file changed after `cutoff`.
pub open spec fn passes_cutoff(e: EntryReport, cutoff: i128) -> bool {
    &&& e is Meta
    &&& !(e->modified is Unsupported)
    &&& !(e->is_file && e->modified is At && e->modified->At_0 > cutoff)
}

/// The entry is a regular file changed after `cutoff`.
pub open spec fn is_newer_file(e: EntryReport, cutoff: i128) -> bool {
    e is Meta && e->is_file && e->modified is At && e->modified->At_0 > cutoff
}

/// The entry shows that the platform cannot report ages.
pub open spec fn is_unsupported_entry(e: EntryReport) -> bool {
    e is MetaUnsupported || (e is Meta && e->modified is Unsupported)
}

/// Walks a build-output directory one entry at a time, so that the caller can
/// stop reading the disk as soon as the outcome is settled.
pub struct CutoffWalk {
    pub cutoff: i128,
    pub state: WalkState,
    pub seen: Ghost<Seq<EntryReport>>,
}

impl CutoffWalk {
    /// The walk holds exactly what its entries so far determine.
    pub open spec fn wf(&self) -> bool {
        self.state == walk_state(self.seen@, self.cutoff)
    }

    pub fn new(cutoff: i128) -> (r: CutoffWalk)
        ensures
            r.wf(),
            r.cutoff == cutoff,
            r.seen@ == Seq::<EntryReport>::empty(),
    {
        CutoffWalk { cutoff, state: WalkState::Running(0), seen: Ghost(Seq::empty()) }
    }

    /// Takes the next entry. Returns the evaluation once it is settled; the
    /// walk need not be read further then.
    pub fn feed(&mut self, e: EntryReport) -> (r: Option<Evaluation>)
        requires
            old(self).wf(),
        ensures
            final(self).wf(),
            final(self).cutoff == old(self).cutoff,
            final(self).seen@ == old(self).seen@.push(e),
            r == (match final(self).state {
                WalkState::Stopped(v) => Some(v),
                WalkState::Running(_) => None,
            }),
    {
        proof {
            assert(self.seen@.push(e).drop_last() =~= self.seen@);
        }
        let ghost before = self.seen@;
        self.seen = Ghost(before.push(e));
        match self.state {
            WalkState::Stopped(v) => Some(v),
            WalkState::Running(total) => {
                let next = match e {
                    EntryReport::Meta { modified, is_file, len } => match modified {
                        ModTime::Unsupported => WalkState::Stopped(Evaluation::Fatal),
                        ModTime::At(t) if is_file && t > self.cutoff => WalkState::Stopped(
                            Evaluation::Decided(CutoffDecision::NotEligible),
                        ),
                        _ => {
                            if is_file {
                                WalkState::Running(total.saturating_add(len))
                            } else {
                                WalkState::Running(total)
                            }
                        },
                    },
                    EntryReport::MetaUnsupported => WalkState::Stopped(Evaluation::Fatal),
                    EntryReport::MetaFailed => WalkState::Stopped(
                        Evaluation::Decided(CutoffDecision::NotEligible),
                    ),
                    EntryReport::WalkFailed => WalkState::Running(total),
                };
                self.state = next;
                match next {
                    WalkState::Stopped(v) => Some(v),
                    WalkState::Running(_) => None,
                }
            },
        }
    }

    /// The evaluation once the walk has ended: the settled outcome, or the
    /// byte total when nothing stopped it.
    pub fn finish(&self) -> (r: Evaluation)
        requires
            self.wf(),
        ensures
            r == evaluation_of(self.seen@, self.cutoff),
    {
        match self.state {
            WalkState::Stopped(v) => v,
            WalkState::Running(t) => Evaluation::Decided(CutoffDecision::Eligible(t)),
        }
    }
}

/// Evaluates a build-output directory whose walk yields `entries`: eligible with
/// its byte total when no file is newer than `cutoff` and every entry could be
/// read; not eligible at the first newer file or unreadable entry; fatal at the
/// first sign that the platform cannot report ages.
pub fn check_target_dir_date(entries: &Vec<EntryReport>, cutoff: i128) -> (r: Evaluation)
    ensures
        r == evaluation_of(entries@, cutoff),
{
    let mut walk = CutoffWalk::new(cutoff);
    let mut i: usize = 0;
    proof {
        assert(entries@.subrange(0, 0) =~= Seq::<EntryReport>::empty());
    }
    while i < entries.len()
        invariant
            i <= entries.len(),
            walk.wf(),
            walk.cutoff == cutoff,
            walk.seen@ == entries@.subrange(0, i as int),
            walk.state is Running,
        decreases entries.len() - i,
    {
        let got = walk.feed(entries[i]);
        proof {
            assert(entries@.subrange(0, i as int).push(entries@[i as int]) =~= entries@.subrange(
                0,
                i + 1,
            ));
        }
        i = i + 1;
        if let Some(v) = got {
            proof {
                lemma_stopped_stays(entries@, i as int, cutoff);
            }
            return v;
        }
    }
    proof {
        assert(entries@.subrange(0, i as int) =~= entries@);
    }
    walk.finish()
}

/// Once a walk has settled, later entries do not change it.
proof fn lemma_stopped_stays(entries: Seq<EntryReport>, k: int, cutoff: i128)
    requires
        0 <= k <= entries.len(),
        walk_state(entries.subrange(0, k), cutoff) is Stopped,
    ensures
        walk_state(entries, cutoff) == walk_state(entries.subrange(0, k), cutoff),
    decreases entries.len() - k,
{
    if k < entries.len() {
        assert(entries.subrange(0, k + 1).drop_last() =~= entries.subrange(0, k));
        lemma_stopped_stays(entries, k + 1, cutoff);
    } else {
        assert(entries.subrange(0, k) =~= entries);
    }
}

/// A directory whose entries were all read and whose files are none of them
/// newer than the cutoff is eligible, with the bytes of its regular files as
/// its size.
pub proof fn lemma_old_tree_is_eligible(entries: Seq<EntryReport>, cutoff: i128)
    requires
        forall|i: int| 0 <= i < entries.len() ==> passes_cutoff(#[trigger] entries[i], cutoff),
    ensures
        walk_state(entries, cutoff) == WalkState::Running(file_bytes(entries)),
        evaluation_of(entries, cutoff) == Evaluation::Decided(
            CutoffDecision::Eligible(file_bytes(entries)),
        ),
    decreases entries.len(),
{
    if entries.len() > 0 {
        let rest = entries.drop_last();
        assert forall|i: int| 0 <= i < rest.len() implies passes_cutoff(
            #[trigger] rest[i],
            cutoff,
        ) by {
            assert(rest[i] == entries[i]);
        }
        lemma_old_tree_is_eligible(rest, cutoff);
        assert(passes_cutoff(entries[entries.len() - 1], cutoff));
    }
}

/// On a platform that reports ages, one regular file newer than the cutoff
/// makes the whole directory ineligible, whatever the other entries hold.
pub proof fn lemma_newer_file_blocks(entries: Seq<EntryReport>, cutoff: i128, k: int)
    requires
        0 <= k < entries.len(),
        is_newer_file(entries[k], cutoff),
        forall|i: int| 0 <= i < entries.len() ==> !is_unsupported_entry(#[trigger] entries[i]),
    ensures
        evaluation_of(entries, cutoff) == Evaluation::Decided(CutoffDecision::NotEligible),
{
    lemma_never_fatal(entries, cutoff, k);
}

proof fn lemma_never_fatal(entries: Seq<EntryReport>, cutoff: i128, k: int)
    requires
        0 <= k,
        forall|i: int| 0 <= i < entries.len() ==> !is_unsupported_entry(#[trigger] entries[i]),
    ensures
        walk_state(entries, cutoff) is Running || walk_state(entries, cutoff) == WalkState::Stopped(
            Evaluation::Decided(CutoffDecision::NotEligible),
        ),
        k < entries.len() && is_newer_file(entries[k], cutoff) ==> walk_state(entries, cutoff)
            == WalkState::Stopped(Evaluation::Decided(CutoffDecision::NotEligible)),
    decreases entries.len(),
{
    if entries.len() > 0 {
        let rest = entries.drop_last();
        assert forall|i: int| 0 <= i < rest.len() implies !is_unsupported_entry(
            #[trigger] rest[i],
        ) by {
            assert(rest[i] == entries[i]);
        }
        lemma_never_fatal(rest, cutoff, k);
        assert(!is_unsupported_entry(entries[entries.len() - 1]));
        if k < rest.len() {
            assert(rest[k] == entries[k]);
        }
    }
}

/// The age cutoff for files that must be at least `days` old, counted back from
/// `now`; none when `days` is zero, which turns the age filter off. A cutoff
/// that would lie before the earliest representable time stays at that time.
pub fn cutoff_from_days(days: u64, now: i128) -> (r: Option<i128>)
    ensures
        days == 0 ==> r is None,
        days > 0 ==> r == Some(
            if now - days * NANOS_PER_DAY < i128::MIN {
                i128::MIN
            } else {
                (now - days * NANOS_PER_DAY) as i128
            },
        ),
{
    if days == 0 {
        None
    } else {
        let span: i128 = (days as i128) * NANOS_PER_DAY;
        if now < i128::MIN + span {
            Some(i128::MIN)
        } else {
            Some(now - span)
        }
    }
}

} // verus!
