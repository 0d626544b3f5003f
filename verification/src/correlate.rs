//! The correlator: joining the (pid, inode) pairs found in a process's
//! descriptor table against the listening-socket snapshot, and building
//! the output rows.

use crate::bytes::rows_view;
use crate::bytes::subvec;
use crate::error::ScanError;
use crate::inventory::inode_from_link_target;
use crate::inventory::spec_inode_from_target;
use crate::ip::IpAddress;
use crate::ports::snap_view;
use crate::ports::ActivePort;
use crate::ports::ActivePortView;
use vstd::prelude::*;

verus! {

/// One output row: a process that owns a descriptor for a listening
/// socket, with the socket's address, port and inode.
#[derive(Debug, PartialEq, Eq)]
pub struct CorrelatedEntry {
    pub comm: String,
    pub pid: u32,
    pub address: IpAddress,
    pub port: u16,
    pub inode: u32,
}

/// The mathematical content of a [`CorrelatedEntry`].
pub ghost struct CorrelatedEntryView {
    pub comm: Seq<char>,
    pub pid: u32,
    pub octets: Seq<u8>,
    pub port: u16,
    pub inode: u32,
}

impl View for CorrelatedEntry {
    type V = CorrelatedEntryView;

    open spec fn view(&self) -> CorrelatedEntryView {
        CorrelatedEntryView {
            comm: self.comm@,
            pid: self.pid,
            octets: self.address.octets@,
            port: self.port,
            inode: self.inode,
        }
    }
}

/// The views of a sequence of output rows.
pub open spec fn entries_view(es: Seq<CorrelatedEntry>) -> Seq<CorrelatedEntryView> {
    es.map_values(|e: CorrelatedEntry| e@)
}

/// Index of the first snapshot record with the given inode, if any.
pub open spec fn spec_find_inode(snap: Seq<ActivePortView>, inode: u32) -> Option<int>
    decreases snap.len(),
{
    if snap.len() == 0 {
        None
    } else if snap[0].inode == inode {
        Some(0)
    } else {
        match spec_find_inode(snap.drop_first(), inode) {
            Some(i) => Some(i + 1),
            None => None,
        }
    }
}

pub proof fn lemma_find_inode(snap: Seq<ActivePortView>, inode: u32)
    ensures
        match spec_find_inode(snap, inode) {
            Some(i) => 0 <= i < snap.len() && snap[i].inode == inode && forall|j: int|
                0 <= j < i ==> snap[j].inode != inode,
            None => forall|j: int| 0 <= j < snap.len() ==> snap[j].inode != inode,
        },
    decreases snap.len(),
{
    if snap.len() > 0 && snap[0].inode != inode {
        lemma_find_inode(snap.drop_first(), inode);
        match spec_find_inode(snap.drop_first(), inode) {
            Some(i) => {
                assert(snap.drop_first()[i] == snap[i + 1]);
                assert forall|j: int| 0 <= j < i + 1 implies snap[j].inode != inode by {
                    if j > 0 {
                        assert(snap.drop_first()[j - 1].inode != inode);
                    }
                }
            },
            None => {
                assert forall|j: int| 0 <= j < snap.len() implies snap[j].inode != inode by {
                    if j > 0 {
                        assert(snap.drop_first()[j - 1].inode != inode);
                    }
                }
            },
        }
    }
}

/// Looks an inode up in the snapshot, returning the position of the
/// first record that carries it. The snapshot is only read.
pub fn find_active_port(snapshot: &Vec<ActivePort>, inode: u32) -> (r: Option<usize>)
    ensures
        r matches Some(i) ==> i < snapshot@.len() && spec_find_inode(
            snap_view(snapshot@),
            inode,
        ) == Some(i as int),
        r is None ==> spec_find_inode(snap_view(snapshot@), inode) is None,
{
    let ghost snap = snap_view(snapshot@);
    let mut i: usize = 0;
    while i < snapshot.len()
        invariant
            0 <= i <= snapshot@.len(),
            snap == snap_view(snapshot@),
            forall|j: int| 0 <= j < i ==> snap[j].inode != inode,
        decreases snapshot@.len() - i,
    {
        proof {
            assert(snap[i as int] == snapshot@[i as int]@);
        }
        if snapshot[i].inode == inode {
            proof {
                lemma_find_inode(snap, inode);
            }
            return Some(i);
        }
        i = i + 1;
    }
    proof {
        lemma_find_inode(snap, inode);
    }
    None
}

/// The output row built for a matched record.
pub open spec fn spec_entry(comm: Seq<char>, pid: u32, p: ActivePortView) -> CorrelatedEntryView {
    CorrelatedEntryView { comm, pid, octets: p.octets, port: p.port, inode: p.inode }
}

/// Builds the output row for a matched record, copying the record's
/// address and the process's command name.
pub fn make_entry(port: &ActivePort, pid: u32, comm: &String) -> (r: CorrelatedEntry)
    ensures
        r@ == spec_entry(comm@, pid, port@),
{
    let octets = subvec(&port.address.octets, 0, port.address.octets.len());
    proof {
        assert(octets@ =~= port.address.octets@);
    }
    CorrelatedEntry {
        comm: comm.clone(),
        pid,
        address: IpAddress { octets },
        port: port.port,
        inode: port.inode,
    }
}

/// Prefixing already-built rows onto the outcome of the descriptors that
/// follow them.
pub open spec fn prepend_entries(
    a: Seq<CorrelatedEntryView>,
    r: Result<Seq<CorrelatedEntryView>, ScanError>,
) -> Result<Seq<CorrelatedEntryView>, ScanError> {
    match r {
        Ok(s) => Ok(a + s),
        Err(e) => Err(e),
    }
}

pub proof fn lemma_prepend_entries_assoc(
    a: Seq<CorrelatedEntryView>,
    b: Seq<CorrelatedEntryView>,
    r: Result<Seq<CorrelatedEntryView>, ScanError>,
)
    ensures
        prepend_entries(a, prepend_entries(b, r)) == prepend_entries(a + b, r),
{
    match r {
        Ok(s) => {
            assert(a + (b + s) =~= (a + b) + s);
        },
        Err(_) => {
        },
    }
}

/// The rows one process contributes, given its descriptors' symlink
/// targets in descriptor order: one row per target that carries an inode
/// matching a snapshot record, in target order, with no deduplication.
/// The first undecodable socket target fails the run.
pub open spec fn spec_correlate(
    snap: Seq<ActivePortView>,
    pid: u32,
    comm: Seq<char>,
    targets: Seq<Seq<u8>>,
) -> Result<Seq<CorrelatedEntryView>, ScanError>
    decreases targets.len(),
{
    if targets.len() == 0 {
        Ok(Seq::empty())
    } else {
        let rest = spec_correlate(snap, pid, comm, targets.drop_first());
        match spec_inode_from_target(targets[0]) {
            Err(e) => Err(e),
            Ok(None) => rest,
            Ok(Some(inode)) => match spec_find_inode(snap, inode) {
                None => rest,
                Some(i) => prepend_entries(seq![spec_entry(comm, pid, snap[i])], rest),
            },
        }
    }
}

/// Correlates one process's descriptor targets against the snapshot,
/// emitting one output row per matched target, in target order.
pub fn correlate_process(
    snapshot: &Vec<ActivePort>,
    pid: u32,
    comm: &String,
    targets: &Vec<Vec<u8>>,
) -> (r: Result<Vec<CorrelatedEntry>, ScanError>)
    ensures
        r matches Ok(es) ==> spec_correlate(snap_view(snapshot@), pid, comm@, rows_view(targets@))
            == Ok::<Seq<CorrelatedEntryView>, ScanError>(entries_view(es@)),
        r matches Err(e) ==> spec_correlate(snap_view(snapshot@), pid, comm@, rows_view(targets@))
            == Err::<Seq<CorrelatedEntryView>, ScanError>(e),
{
    let ghost snap = snap_view(snapshot@);
    let ghost all = rows_view(targets@);
    let mut out: Vec<CorrelatedEntry> = Vec::new();
    let mut i: usize = 0;
    proof {
        assert(all.skip(0) =~= all);
        assert(entries_view(out@) =~= Seq::<CorrelatedEntryView>::empty());
    }
    while i < targets.len()
        invariant
            0 <= i <= targets@.len(),
            snap == snap_view(snapshot@),
            all == rows_view(targets@),
            spec_correlate(snap, pid, comm@, all) == prepend_entries(
                entries_view(out@),
                spec_correlate(snap, pid, comm@, all.skip(i as int)),
            ),
        decreases targets@.len() - i,
    {
        let ghost prev_out = out@;
        proof {
            assert(all.skip(i as int)[0] == all[i as int]);
            assert(all[i as int] == targets@[i as int]@);
            assert(all.skip(i as int).drop_first() =~= all.skip(i as int + 1));
        }
        match inode_from_link_target(&targets[i]) {
            Err(e) => {
                return Err(e);
            },
            Ok(None) => {
            },
            Ok(Some(inode)) => {
                match find_active_port(snapshot, inode) {
                    None => {
                    },
                    Some(idx) => {
                        proof {
                            assert(snap[idx as int] == snapshot@[idx as int]@);
                        }
                        let entry = make_entry(&snapshot[idx], pid, comm);
                        out.push(entry);
                        proof {
                            assert(entries_view(out@) =~= entries_view(prev_out) + seq![entry@]);
                            lemma_prepend_entries_assoc(
                                entries_view(prev_out),
                                seq![entry@],
                                spec_correlate(snap, pid, comm@, all.skip(i as int + 1)),
                            );
                        }
                    },
                }
            },
        }
        i = i + 1;
    }
    proof {
        assert(all.skip(targets@.len() as int) =~= Seq::<Seq<u8>>::empty());
        assert(entries_view(out@) + Seq::<CorrelatedEntryView>::empty() =~= entries_view(out@));
    }
    Ok(out)
}

/// No-deduplication law: two descriptors of one process that resolve to
/// the same matched inode yield two output rows, one per descriptor, and
/// the rows are equal.
pub proof fn lemma_duplicate_descriptors_kept(
    snap: Seq<ActivePortView>,
    pid: u32,
    comm: Seq<char>,
    t1: Seq<u8>,
    t2: Seq<u8>,
    inode: u32,
)
    requires
        spec_inode_from_target(t1) == Ok::<Option<u32>, ScanError>(Some(inode)),
        spec_inode_from_target(t2) == Ok::<Option<u32>, ScanError>(Some(inode)),
        spec_find_inode(snap, inode) is Some,
    ensures
        spec_correlate(snap, pid, comm, seq![t1, t2]) matches Ok(es) && es.len() == 2 && es[0]
            == es[1],
{
    let ts = seq![t1, t2];
    assert(ts.drop_first() =~= seq![t2]);
    assert(seq![t2].drop_first() =~= Seq::<Seq<u8>>::empty());
    assert(ts[0] == t1);
    assert(seq![t2][0] == t2);
    lemma_find_inode(snap, inode);
    let i = spec_find_inode(snap, inode).unwrap();
    let e = spec_entry(comm, pid, snap[i]);
    assert(spec_correlate(snap, pid, comm, Seq::<Seq<u8>>::empty()) == Ok::<
        Seq<CorrelatedEntryView>,
        ScanError,
    >(Seq::empty()));
    assert(spec_correlate(snap, pid, comm, seq![t2]) == prepend_entries(
        seq![e],
        spec_correlate(snap, pid, comm, seq![t2].drop_first()),
    ));
    assert(spec_correlate(snap, pid, comm, seq![t2]) == Ok::<Seq<CorrelatedEntryView>, ScanError>(
        seq![e] + Seq::<CorrelatedEntryView>::empty(),
    ));
    assert(spec_correlate(snap, pid, comm, ts) == Ok::<Seq<CorrelatedEntryView>, ScanError>(
        seq![e] + (seq![e] + Seq::<CorrelatedEntryView>::empty()),
    ));
    assert(seq![e] + (seq![e] + Seq::<CorrelatedEntryView>::empty()) =~= seq![e, e]);
}

} // verus!
