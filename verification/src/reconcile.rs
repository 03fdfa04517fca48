//! Reconciliation of the registry with what the network answers now.
//!
//! The caller takes the entries of the registry, asks each cached address
//! for its `dut_id` again, and hands the outcomes in. The registry is
//! changed only after all outcomes are there.

use vstd::prelude::*;
use crate::attributes::identity_name;
use crate::attributes::Attributes;
use crate::descriptor::ConnectionDescriptor;
use crate::descriptor::DescriptorView;
use crate::error::DutError;
use crate::registry::entry_texts;
use crate::registry::Registry;
use crate::text::same_text;

verus! {

/// What a known device turned out to be when it was asked again.
#[derive(Debug, Clone, Copy, PartialEq, Eq, Structural)]
pub enum FleetStatus {
    /// The cached address answers with the cached identity.
    Online,
    /// The cached address did not answer.
    Offline,
    /// The cached address answers, but not with the cached identity: it
    /// belongs to another device now.
    AddressReused,
}

/// Whether a reconciliation only reports, or also prunes the registry.
#[derive(Debug, Clone, Copy, PartialEq, Eq, Structural)]
pub enum ReconcileMode {
    Status,
    Update,
}

/// One line of a reconciliation: an entry of the registry and its status.
#[derive(Debug)]
pub struct StatusLine {
    pub identity: String,
    pub status: FleetStatus,
    pub descriptor: ConnectionDescriptor,
}

/// A [`StatusLine`] as mathematical values.
pub struct StatusLineView {
    pub identity: Seq<char>,
    pub status: FleetStatus,
    pub descriptor: DescriptorView,
}

impl View for StatusLine {
    type V = StatusLineView;

    open spec fn view(&self) -> StatusLineView {
        StatusLineView {
            identity: self.identity@,
            status: self.status,
            descriptor: self.descriptor@,
        }
    }
}

/// The views of a sequence of lines.
pub open spec fn line_views(lines: Seq<StatusLine>) -> Seq<StatusLineView> {
    lines.map_values(|line: StatusLine| line@)
}

/// What a probe answered: the attributes, or nothing where it failed.
pub open spec fn answer_of(outcome: Result<Attributes, DutError>) -> Option<
    Map<Seq<char>, Seq<char>>,
> {
    match outcome {
        Ok(attributes) => Some(attributes@),
        Err(_) => None,
    }
}

/// The status of the device known as `identity`, given what its cached
/// address answered.
pub open spec fn classified(
    identity: Seq<char>,
    answer: Option<Map<Seq<char>, Seq<char>>>,
) -> FleetStatus {
    match answer {
        None => FleetStatus::Offline,
        Some(attributes) => if attributes.contains_key(identity_name())
            && attributes[identity_name()] == identity {
            FleetStatus::Online
        } else {
            FleetStatus::AddressReused
        },
    }
}

/// Classifies one known device by the outcome of its probe.
pub fn classify(identity: &str, outcome: &Result<Attributes, DutError>) -> (status: FleetStatus)
    ensures
        status == classified(identity@, answer_of(*outcome)),
{
    match outcome {
        Err(_) => FleetStatus::Offline,
        Ok(attributes) => match attributes.identity() {
            Some(answered) => if same_text(answered, identity) {
                FleetStatus::Online
            } else {
                FleetStatus::AddressReused
            },
            None => FleetStatus::AddressReused,
        },
    }
}

/// The status of the entry at position `i`, given the outcomes of the
/// probes by position. An entry without an outcome counts as not answering.
pub open spec fn status_at(
    entries: Seq<(Seq<char>, DescriptorView)>,
    outcomes: Seq<Result<Attributes, DutError>>,
    i: int,
) -> FleetStatus {
    if i < outcomes.len() {
        classified(entries[i].0, answer_of(outcomes[i]))
    } else {
        FleetStatus::Offline
    }
}

/// One line per entry, in the order of the entries: the entry with the
/// status that its outcome gives it.
pub fn check_fleet(
    entries: &Vec<(String, ConnectionDescriptor)>,
    outcomes: &Vec<Result<Attributes, DutError>>,
) -> (lines: Vec<StatusLine>)
    ensures
        lines@.len() == entries@.len(),
        forall|i: int|
            0 <= i < lines@.len() ==> (#[trigger] lines@[i])@ == (StatusLineView {
                identity: entries@[i].0@,
                status: status_at(entry_texts(entries@), outcomes@, i),
                descriptor: entries@[i].1@,
            }),
{
    let mut lines: Vec<StatusLine> = Vec::new();
    let mut i: usize = 0;
    while i < entries.len()
        invariant
            i <= entries.len(),
            lines@.len() == i,
            forall|k: int|
                0 <= k < i ==> (#[trigger] lines@[k])@ == (StatusLineView {
                    identity: entries@[k].0@,
                    status: status_at(entry_texts(entries@), outcomes@, k),
                    descriptor: entries@[k].1@,
                }),
        decreases entries.len() - i,
    {
        let status = if i < outcomes.len() {
            classify(entries[i].0.as_str(), &outcomes[i])
        } else {
            FleetStatus::Offline
        };
        lines.push(
            StatusLine {
                identity: entries[i].0.clone(),
                status,
                descriptor: entries[i].1.clone(),
            },
        );
        i = i + 1;
    }
    lines
}

/// The lines that stay listed in update mode.
pub open spec fn is_kept() -> spec_fn(StatusLineView) -> bool {
    |line: StatusLineView| line.status != FleetStatus::AddressReused
}

/// The lines whose entries are removed in update mode.
pub open spec fn is_reused() -> spec_fn(StatusLineView) -> bool {
    |line: StatusLineView| line.status == FleetStatus::AddressReused
}

/// Whether the line at `i` says that the address of `identity` is reused.
pub open spec fn reused_at(lines: Seq<StatusLineView>, i: int, identity: Seq<char>) -> bool {
    0 <= i < lines.len() && lines[i].status == FleetStatus::AddressReused && lines[i].identity
        == identity
}

/// The identities whose addresses are reused, by `lines`.
pub open spec fn reused_identities(lines: Seq<StatusLineView>) -> Set<Seq<char>> {
    Set::new(|identity: Seq<char>| exists|i: int| reused_at(lines, i, identity))
}

/// The registry after a reconciliation: as before in status mode; in
/// update mode without the identities whose addresses are reused.
pub open spec fn reconciled(
    known: Map<Seq<char>, DescriptorView>,
    lines: Seq<StatusLineView>,
    mode: ReconcileMode,
) -> Map<Seq<char>, DescriptorView> {
    match mode {
        ReconcileMode::Status => known,
        ReconcileMode::Update => known.remove_keys(reused_identities(lines)),
    }
}

/// What a reconciliation reports.
#[derive(Debug)]
pub struct ReconcileReport {
    /// The lines of the entries that are listed as known.
    pub listed: Vec<StatusLine>,
    /// The lines of the entries that were removed.
    pub removed: Vec<StatusLine>,
}

/// Applies the lines of a reconciliation. In status mode every line is
/// listed and the registry is not touched. In update mode the entries whose
/// addresses are reused are removed and reported apart; the others, those
/// that did not answer included, stay.
pub fn reconcile(registry: &mut Registry, lines: Vec<StatusLine>, mode: ReconcileMode) -> (report:
    ReconcileReport)
    ensures
        final(registry).loaded() == old(registry).loaded(),
        final(registry)@ == reconciled(old(registry)@, line_views(lines@), mode),
        mode == ReconcileMode::Status ==> *final(registry) == *old(registry),
        line_views(report.listed@) == match mode {
            ReconcileMode::Status => line_views(lines@),
            ReconcileMode::Update => line_views(lines@).filter(is_kept()),
        },
        line_views(report.removed@) == match mode {
            ReconcileMode::Status => Seq::empty(),
            ReconcileMode::Update => line_views(lines@).filter(is_reused()),
        },
{
    match mode {
        ReconcileMode::Status => {
            let removed: Vec<StatusLine> = Vec::new();
            proof {
                assert(line_views(removed@) =~= Seq::<StatusLineView>::empty());
            }
            ReconcileReport { listed: lines, removed }
        },
        ReconcileMode::Update => {
            let ghost known = registry@;
            let ghost all = line_views(lines@);
            let ghost raw = lines@;
            let mut listed: Vec<StatusLine> = Vec::new();
            let mut removed: Vec<StatusLine> = Vec::new();
            proof {
                assert(all.take(0) =~= Seq::<StatusLineView>::empty());
                assert(line_views(listed@) =~= all.take(0).filter(is_kept()));
                assert(line_views(removed@) =~= all.take(0).filter(is_reused()));
                assert(reused_identities(all.take(0)) =~= Set::<Seq<char>>::empty()) by {
                    assert forall|k: Seq<char>| !reused_identities(all.take(0)).contains(k) by {
                        if reused_identities(all.take(0)).contains(k) {
                            let i = choose|i: int| reused_at(all.take(0), i, k);
                            assert(reused_at(all.take(0), i, k));
                        }
                    }
                }
                assert(known.remove_keys(Set::<Seq<char>>::empty()) =~= known);
            }
            for line in it: lines
                invariant
                    it.seq() == raw,
                    all == line_views(raw),
                    registry.loaded() == old(registry).loaded(),
                    registry@ == known.remove_keys(
                        reused_identities(all.take(it.index() as int)),
                    ),
                    line_views(listed@) == all.take(it.index() as int).filter(is_kept()),
                    line_views(removed@) == all.take(it.index() as int).filter(is_reused()),
            {
                let ghost n = it.index() as int;
                let ghost before = all.take(n);
                let ghost upto = all.take(n + 1);
                let ghost prev_listed = listed@;
                let ghost prev_removed = removed@;
                proof {
                    assert(all[n] == line@);
                    assert(upto =~= before.push(line@));
                    before.lemma_filter_push(line@, is_kept());
                    before.lemma_filter_push(line@, is_reused());
                    assert forall|k: Seq<char>|
                        reused_identities(upto).contains(k) <==> (reused_identities(
                            before,
                        ).contains(k) || (line.status == FleetStatus::AddressReused && k
                            == line.identity@)) by {
                        if reused_identities(upto).contains(k) {
                            let i = choose|i: int| reused_at(upto, i, k);
                            assert(reused_at(upto, i, k));
                            if i < n {
                                assert(reused_at(before, i, k));
                            }
                        }
                        if reused_identities(before).contains(k) {
                            let i = choose|i: int| reused_at(before, i, k);
                            assert(reused_at(before, i, k));
                            assert(reused_at(upto, i, k));
                        }
                        if line.status == FleetStatus::AddressReused && k == line.identity@ {
                            assert(reused_at(upto, n, k));
                        }
                    }
                }
                match line.status {
                    FleetStatus::AddressReused => {
                        registry.remove(line.identity.as_str());
                        proof {
                            assert(reused_identities(upto) =~= reused_identities(before).insert(
                                line.identity@,
                            ));
                            assert(known.remove_keys(reused_identities(before)).remove(
                                line.identity@,
                            ) =~= known.remove_keys(reused_identities(upto)));
                        }
                        removed.push(line);
                        proof {
                            assert(line_views(removed@) =~= line_views(prev_removed).push(
                                all[n],
                            ));
                        }
                    },
                    _ => {
                        proof {
                            assert(reused_identities(upto) =~= reused_identities(before));
                        }
                        listed.push(line);
                        proof {
                            assert(line_views(listed@) =~= line_views(prev_listed).push(all[n]));
                        }
                    },
                }
            }
            proof {
                assert(all.take(all.len() as int) =~= all);
            }
            ReconcileReport { listed, removed }
        },
    }
}

/// An address that answers with another identity than the one stored is
/// classified as reused. Updating then removes that entry and keeps every
/// entry that is not classified so; reporting the status changes nothing.
pub proof fn lemma_reused_address_is_pruned(
    known: Map<Seq<char>, DescriptorView>,
    lines: Seq<StatusLineView>,
    i: int,
    answer: Map<Seq<char>, Seq<char>>,
)
    requires
        0 <= i < lines.len(),
        answer.contains_key(identity_name()),
        answer[identity_name()] != lines[i].identity,
        lines[i].status == classified(lines[i].identity, Some(answer)),
    ensures
        lines[i].status == FleetStatus::AddressReused,
        !reconciled(known, lines, ReconcileMode::Update).contains_key(lines[i].identity),
        reconciled(known, lines, ReconcileMode::Status) == known,
        forall|k: Seq<char>|
            known.contains_key(k) && !reused_identities(lines).contains(k) ==> #[trigger] reconciled(
                known,
                lines,
                ReconcileMode::Update,
            ).contains_key(k) && reconciled(known, lines, ReconcileMode::Update)[k] == known[k],
{
    assert(reused_at(lines, i, lines[i].identity));
}

/// An entry that did not answer, or that answered with its own identity,
/// is never removed on its own account.
pub proof fn lemma_only_reused_addresses_are_pruned(
    known: Map<Seq<char>, DescriptorView>,
    lines: Seq<StatusLineView>,
    identity: Seq<char>,
)
    requires
        known.contains_key(identity),
        forall|i: int|
            0 <= i < lines.len() && (#[trigger] lines[i]).identity == identity ==> lines[i].status
                != FleetStatus::AddressReused,
    ensures
        reconciled(known, lines, ReconcileMode::Update).contains_key(identity),
        reconciled(known, lines, ReconcileMode::Update)[identity] == known[identity],
{
    if reused_identities(lines).contains(identity) {
        let i = choose|i: int| reused_at(lines, i, identity);
        assert(reused_at(lines, i, identity));
    }
}

} // verus!
