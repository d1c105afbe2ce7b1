//! The tunnel registry: the authoritative map from tunnel identifier to
//! tunnel record, and the set of bound listening ports. Its invariants: ids
//! unique, ports unique across records, the port list holds exactly the
//! ports of the live records, and each record's destination equals the
//! destination in the most recent `Open` message sent on its control
//! channel.

use vstd::prelude::*;
use crate::net::Destination;
use crate::runtime::ProxyControlMessage;
use crate::hexstr::{spec_hex_decode, decode_hex};
use crate::auth::{p384_key_valid, p384_key_parses};
use crate::command::spec_sig_bytes;

verus! {

/// One live tunnel: its identifier, bound port, current destination, and
/// the latest message sent on its control channel.
#[derive(Clone, Copy, PartialEq, Eq, Debug)]
pub struct Tunnel {
    pub id: u128,
    pub incoming_port: u16,
    pub destination: Destination,
    pub latest: ProxyControlMessage,
}

/// The outcome of a registry operation.
#[derive(Clone, Copy, PartialEq, Eq, Debug)]
pub enum RegistryOutcome {
    Accepted,
    IdConflict,
    PortConflict,
    NotFound,
}

/// The process-wide state: live tunnels in creation order, the bound port
/// list, and the configured verifying key (SEC1 bytes), if any.
pub struct GlobalState {
    pub tunnels: Vec<Tunnel>,
    pub ports: Vec<u16>,
    pub verifying_key: Option<Vec<u8>>,
}

/// Some record carries this id.
pub open spec fn spec_has_id(ts: Seq<Tunnel>, id: u128) -> bool {
    exists|k: int| 0 <= k < ts.len() && (#[trigger] ts[k]).id == id
}

/// The index of the record with this id (meaningful when `spec_has_id`).
pub open spec fn spec_lookup(ts: Seq<Tunnel>, id: u128) -> int {
    choose|k: int| 0 <= k < ts.len() && (#[trigger] ts[k]).id == id
}

/// Some record is bound to this port.
pub open spec fn spec_port_used(ts: Seq<Tunnel>, p: u16) -> bool {
    exists|k: int| 0 <= k < ts.len() && (#[trigger] ts[k]).incoming_port == p
}

/// The registry invariants.
pub open spec fn wf_tunnels(ts: Seq<Tunnel>, ps: Seq<u16>) -> bool {
    &&& forall|k1: int, k2: int|
        0 <= k1 < ts.len() && 0 <= k2 < ts.len() && k1 != k2 ==> (#[trigger] ts[k1]).id != (
        #[trigger] ts[k2]).id
    &&& forall|k1: int, k2: int|
        0 <= k1 < ts.len() && 0 <= k2 < ts.len() && k1 != k2 ==> (#[trigger] ts[k1]).incoming_port
            != (#[trigger] ts[k2]).incoming_port
    &&& forall|j1: int, j2: int|
        0 <= j1 < ps.len() && 0 <= j2 < ps.len() && j1 != j2 ==> #[trigger] ps[j1] != #[trigger] ps[j2]
    &&& forall|p: u16| #[trigger] ps.contains(p) <==> spec_port_used(ts, p)
    &&& forall|k: int|
        0 <= k < ts.len() ==> (#[trigger] ts[k]).latest == (ProxyControlMessage::Open {
            destination: ts[k].destination,
        })
}

// ------------------------- transitions -------------------------

/// Create: id conflict, then port conflict, else append the record with its
/// port reserved and its control channel seeded `Open { destination }`.
pub open spec fn spec_create(
    ts: Seq<Tunnel>,
    ps: Seq<u16>,
    id: u128,
    incoming_port: u16,
    destination: Destination,
) -> (Seq<Tunnel>, Seq<u16>, RegistryOutcome) {
    if spec_has_id(ts, id) {
        (ts, ps, RegistryOutcome::IdConflict)
    } else if ps.contains(incoming_port) {
        (ts, ps, RegistryOutcome::PortConflict)
    } else {
        (
            ts.push(
                Tunnel {
                    id,
                    incoming_port,
                    destination,
                    latest: ProxyControlMessage::Open { destination },
                },
            ),
            ps.push(incoming_port),
            RegistryOutcome::Accepted,
        )
    }
}

/// Modify: replace the destination of the record with this id and note the
/// `Open` broadcast; not found when no record has the id.
pub open spec fn spec_modify(ts: Seq<Tunnel>, id: u128, destination: Destination) -> (
    Seq<Tunnel>,
    RegistryOutcome,
) {
    if spec_has_id(ts, id) {
        let k = spec_lookup(ts, id);
        (
            ts.update(
                k,
                Tunnel {
                    id,
                    incoming_port: ts[k].incoming_port,
                    destination,
                    latest: ProxyControlMessage::Open { destination },
                },
            ),
            RegistryOutcome::Accepted,
        )
    } else {
        (ts, RegistryOutcome::NotFound)
    }
}

/// Delete: remove the record with this id and release its port; not found
/// when no record has the id.
pub open spec fn spec_delete(ts: Seq<Tunnel>, ps: Seq<u16>, id: u128) -> (
    Seq<Tunnel>,
    Seq<u16>,
    RegistryOutcome,
) {
    if spec_has_id(ts, id) {
        let k = spec_lookup(ts, id);
        let p = ts[k].incoming_port;
        if ps.contains(p) {
            let j = choose|j: int| 0 <= j < ps.len() && ps[j] == p;
            (ts.remove(k), ps.remove(j), RegistryOutcome::Accepted)
        } else {
            (ts.remove(k), ps, RegistryOutcome::Accepted)
        }
    } else {
        (ts, ps, RegistryOutcome::NotFound)
    }
}

// ------------------------- invariant preservation -------------------------

/// Create preserves the invariants.
pub proof fn lemma_create_preserves_wf(
    ts: Seq<Tunnel>,
    ps: Seq<u16>,
    id: u128,
    incoming_port: u16,
    destination: Destination,
)
    requires
        wf_tunnels(ts, ps),
    ensures
        wf_tunnels(spec_create(ts, ps, id, incoming_port, destination).0, spec_create(ts, ps, id, incoming_port, destination).1),
{
    if !spec_has_id(ts, id) && !ps.contains(incoming_port) {
        let t = Tunnel {
            id,
            incoming_port,
            destination,
            latest: ProxyControlMessage::Open { destination },
        };
        let tsn = ts.push(t);
        let psn = ps.push(incoming_port);
        assert(forall|k: int| 0 <= k < ts.len() ==> tsn[k] == ts[k]);
        assert(tsn[ts.len() as int] == t);
        assert(forall|j: int| 0 <= j < ps.len() ==> psn[j] == ps[j]);
        assert(psn[ps.len() as int] == incoming_port);
        assert(forall|k: int| 0 <= k < ts.len() ==> (#[trigger] ts[k]).incoming_port
            != incoming_port) by {
            if exists|k: int| 0 <= k < ts.len() && (#[trigger] ts[k]).incoming_port
                == incoming_port {
                assert(spec_port_used(ts, incoming_port));
                assert(ps.contains(incoming_port));
            }
        }
        assert forall|p: u16| #[trigger] psn.contains(p) implies spec_port_used(tsn, p) by {
            let j = choose|j: int| 0 <= j < psn.len() && psn[j] == p;
            if j < ps.len() {
                assert(ps[j] == p);
                assert(ps.contains(p));
                let k = choose|k: int| 0 <= k < ts.len() && (#[trigger] ts[k]).incoming_port == p;
                assert(tsn[k].incoming_port == p);
            } else {
                assert(tsn[ts.len() as int].incoming_port == p);
            }
        }
        assert forall|p: u16| spec_port_used(tsn, p) implies #[trigger] psn.contains(p) by {
            let k = choose|k: int| 0 <= k < tsn.len() && (#[trigger] tsn[k]).incoming_port == p;
            if k < ts.len() {
                assert(spec_port_used(ts, p));
                assert(ps.contains(p));
                let j = choose|j: int| 0 <= j < ps.len() && ps[j] == p;
                assert(psn[j] == p);
            } else {
                assert(psn[ps.len() as int] == p);
            }
        }
    }
}

/// Modify preserves the invariants and touches no port.
pub proof fn lemma_modify_preserves_wf(ts: Seq<Tunnel>, ps: Seq<u16>, id: u128, destination: Destination)
    requires
        wf_tunnels(ts, ps),
    ensures
        wf_tunnels(spec_modify(ts, id, destination).0, ps),
{
    if spec_has_id(ts, id) {
        let k = spec_lookup(ts, id);
        assert(0 <= k < ts.len() && ts[k].id == id);
        let tsn = spec_modify(ts, id, destination).0;
        assert(tsn.len() == ts.len());
        assert(forall|m: int| 0 <= m < ts.len() && m != k ==> tsn[m] == ts[m]);
        assert(tsn[k].id == ts[k].id);
        assert(tsn[k].incoming_port == ts[k].incoming_port);
        assert forall|p: u16| spec_port_used(tsn, p) <==> spec_port_used(ts, p) by {
            if spec_port_used(tsn, p) {
                let m = choose|m: int| 0 <= m < tsn.len() && (#[trigger] tsn[m]).incoming_port
                    == p;
                assert(ts[m].incoming_port == p);
            }
            if spec_port_used(ts, p) {
                let m = choose|m: int| 0 <= m < ts.len() && (#[trigger] ts[m]).incoming_port == p;
                assert(tsn[m].incoming_port == p);
            }
        }
    }
}

/// Delete preserves the invariants.
pub proof fn lemma_delete_preserves_wf(ts: Seq<Tunnel>, ps: Seq<u16>, id: u128)
    requires
        wf_tunnels(ts, ps),
    ensures
        wf_tunnels(spec_delete(ts, ps, id).0, spec_delete(ts, ps, id).1),
{
    if spec_has_id(ts, id) {
        let k = spec_lookup(ts, id);
        assert(0 <= k < ts.len() && ts[k].id == id);
        let p = ts[k].incoming_port;
        assert(spec_port_used(ts, p));
        assert(ps.contains(p));
        let j = choose|j: int| 0 <= j < ps.len() && ps[j] == p;
        let tsn = ts.remove(k);
        let psn = ps.remove(j);
        assert(forall|m: int| 0 <= m < k ==> tsn[m] == ts[m]);
        assert(forall|m: int| k <= m < tsn.len() ==> tsn[m] == ts[m + 1]);
        assert(forall|m: int| 0 <= m < j ==> psn[m] == ps[m]);
        assert(forall|m: int| j <= m < psn.len() ==> psn[m] == ps[m + 1]);
        assert forall|q: u16| #[trigger] psn.contains(q) implies spec_port_used(tsn, q) by {
            let m = choose|m: int| 0 <= m < psn.len() && psn[m] == q;
            let m0 = if m < j {
                m
            } else {
                m + 1
            };
            assert(ps[m0] == q);
            assert(m0 != j ==> q != p) by {
                if q == p && m0 != j {
                    assert(ps[m0] == ps[j]);
                }
            }
            assert(q != p);
            assert(ps.contains(q));
            let w = choose|w: int| 0 <= w < ts.len() && (#[trigger] ts[w]).incoming_port == q;
            assert(w != k);
            if w < k {
                assert(tsn[w].incoming_port == q);
            } else {
                assert(tsn[w - 1].incoming_port == q);
            }
        }
        assert forall|q: u16| spec_port_used(tsn, q) implies #[trigger] psn.contains(q) by {
            let w = choose|w: int| 0 <= w < tsn.len() && (#[trigger] tsn[w]).incoming_port == q;
            let w0 = if w < k {
                w
            } else {
                w + 1
            };
            assert(ts[w0].incoming_port == q);
            assert(w0 != k);
            assert(q != p) by {
                if q == p {
                    assert(ts[w0].incoming_port == ts[k].incoming_port);
                }
            }
            assert(ps.contains(q));
            let m = choose|m: int| 0 <= m < ps.len() && ps[m] == q;
            assert(m != j);
            if m < j {
                assert(psn[m] == q);
            } else {
                assert(psn[m - 1] == q);
            }
        }
    }
}

// ------------------------- the state and its operations -------------------------

/// The configured key for a given hex argument: the decoded bytes when they
/// are hex and a valid P-384 key, else nothing (verification disabled).
pub open spec fn spec_key_of(hex: Seq<char>) -> Option<Seq<u8>> {
    match spec_hex_decode(hex) {
        Some(b) => if p384_key_valid(b) {
            Some(b)
        } else {
            None
        },
        None => None,
    }
}

impl GlobalState {
    /// The registry invariants, over this state.
    pub open spec fn wf(&self) -> bool {
        wf_tunnels(self.tunnels@, self.ports@)
    }

    /// A fresh state: no tunnels, no ports, and the key decoded from the
    /// optional hex argument (an absent or unusable key disables
    /// verification).
    pub fn new(verifying_key: Option<&str>) -> (r: GlobalState)
        ensures
            r.wf(),
            r.tunnels@ =~= Seq::<Tunnel>::empty(),
            r.ports@ =~= Seq::<u16>::empty(),
            match verifying_key {
                None => r.verifying_key is None,
                Some(h) => spec_sig_bytes(r.verifying_key) == spec_key_of(h@),
            },
    {
        let key: Option<Vec<u8>> = match verifying_key {
            None => None,
            Some(h) => match decode_hex(h) {
                Some(b) => {
                    if p384_key_parses(&b) {
                        Some(b)
                    } else {
                        None
                    }
                },
                None => None,
            },
        };
        let r = GlobalState { tunnels: Vec::new(), ports: Vec::new(), verifying_key: key };
        proof {
            assert(forall|p: u16| !r.ports@.contains(p));
            assert(forall|p: u16| !spec_port_used(r.tunnels@, p));
        }
        r
    }

    /// The index of the record with this id, if any.
    fn find_tunnel(&self, id: u128) -> (r: Option<usize>)
        ensures
            match r {
                Some(k) => k < self.tunnels@.len() && self.tunnels@[k as int].id == id,
                None => !spec_has_id(self.tunnels@, id),
            },
    {
        let mut k: usize = 0;
        while k < self.tunnels.len()
            invariant
                k <= self.tunnels@.len(),
                forall|m: int| 0 <= m < k ==> (#[trigger] self.tunnels@[m]).id != id,
            decreases self.tunnels@.len() - k,
        {
            if self.tunnels[k].id == id {
                return Some(k);
            }
            k = k + 1;
        }
        None
    }

    /// The index of this port in the port list, if any.
    fn find_port(&self, p: u16) -> (r: Option<usize>)
        ensures
            match r {
                Some(j) => j < self.ports@.len() && self.ports@[j as int] == p
                    && self.ports@.contains(p),
                None => !self.ports@.contains(p),
            },
    {
        let mut j: usize = 0;
        while j < self.ports.len()
            invariant
                j <= self.ports@.len(),
                forall|m: int| 0 <= m < j ==> #[trigger] self.ports@[m] != p,
            decreases self.ports@.len() - j,
        {
            if self.ports[j] == p {
                return Some(j);
            }
            j = j + 1;
        }
        proof {
            if self.ports@.contains(p) {
                let m = choose|m: int| 0 <= m < self.ports@.len() && self.ports@[m] == p;
                assert(self.ports@[m] != p);
            }
        }
        None
    }

    /// Create a tunnel: fails on a duplicate id or an already-reserved
    /// port, else reserves the port and appends the record.
    pub fn create(&mut self, id: u128, incoming_port: u16, destination: Destination) -> (r:
        RegistryOutcome)
        requires
            old(self).wf(),
        ensures
            final(self).wf(),
            final(self).verifying_key == old(self).verifying_key,
            final(self).tunnels@ == spec_create(
                old(self).tunnels@,
                old(self).ports@,
                id,
                incoming_port,
                destination,
            ).0,
            final(self).ports@ == spec_create(
                old(self).tunnels@,
                old(self).ports@,
                id,
                incoming_port,
                destination,
            ).1,
            r == spec_create(old(self).tunnels@, old(self).ports@, id, incoming_port, destination).2,
    {
        if self.find_tunnel(id).is_some() {
            return RegistryOutcome::IdConflict;
        }
        if self.find_port(incoming_port).is_some() {
            return RegistryOutcome::PortConflict;
        }
        let t = Tunnel {
            id,
            incoming_port,
            destination,
            latest: ProxyControlMessage::Open { destination },
        };
        self.tunnels.push(t);
        self.ports.push(incoming_port);
        proof {
            lemma_create_preserves_wf(
                old(self).tunnels@,
                old(self).ports@,
                id,
                incoming_port,
                destination,
            );
        }
        RegistryOutcome::Accepted
    }

    /// Modify a tunnel's destination; the new record notes the `Open`
    /// broadcast that must follow. The port list is untouched.
    pub fn modify(&mut self, id: u128, destination: Destination) -> (r: RegistryOutcome)
        requires
            old(self).wf(),
        ensures
            final(self).wf(),
            final(self).verifying_key == old(self).verifying_key,
            final(self).ports@ == old(self).ports@,
            final(self).tunnels@ == spec_modify(old(self).tunnels@, id, destination).0,
            r == spec_modify(old(self).tunnels@, id, destination).1,
    {
        let k = match self.find_tunnel(id) {
            Some(k) => k,
            None => {
                return RegistryOutcome::NotFound;
            },
        };
        let t = self.tunnels.remove(k);
        let nt = Tunnel {
            id: t.id,
            incoming_port: t.incoming_port,
            destination,
            latest: ProxyControlMessage::Open { destination },
        };
        self.tunnels.insert(k, nt);
        proof {
            let ts = old(self).tunnels@;
            let kk = spec_lookup(ts, id);
            assert(0 <= kk < ts.len() && ts[kk].id == id);
            assert(kk == k);
            assert(self.tunnels@ =~= ts.update(
                kk,
                Tunnel {
                    id,
                    incoming_port: ts[kk].incoming_port,
                    destination,
                    latest: ProxyControlMessage::Open { destination },
                },
            ));
            lemma_modify_preserves_wf(ts, old(self).ports@, id, destination);
        }
        RegistryOutcome::Accepted
    }

    /// Delete a tunnel: remove its record and release its port. The caller
    /// must then broadcast `Close` on the tunnel's control channel.
    pub fn delete(&mut self, id: u128) -> (r: RegistryOutcome)
        requires
            old(self).wf(),
        ensures
            final(self).wf(),
            final(self).verifying_key == old(self).verifying_key,
            final(self).tunnels@ == spec_delete(old(self).tunnels@, old(self).ports@, id).0,
            final(self).ports@ == spec_delete(old(self).tunnels@, old(self).ports@, id).1,
            r == spec_delete(old(self).tunnels@, old(self).ports@, id).2,
    {
        let k = match self.find_tunnel(id) {
            Some(k) => k,
            None => {
                return RegistryOutcome::NotFound;
            },
        };
        let t = self.tunnels.remove(k);
        proof {
            let ts = old(self).tunnels@;
            let kk = spec_lookup(ts, id);
            assert(0 <= kk < ts.len() && ts[kk].id == id);
            assert(kk == k);
            assert(spec_port_used(ts, t.incoming_port)) by {
                assert(ts[k as int].incoming_port == t.incoming_port);
            }
        }
        let j = match self.find_port(t.incoming_port) {
            Some(j) => j,
            None => {
                proof {
                    assert(false);
                }
                0
            },
        };
        self.ports.remove(j);
        proof {
            let ts = old(self).tunnels@;
            let ps = old(self).ports@;
            let jj = choose|m: int| 0 <= m < ps.len() && ps[m] == ts[spec_lookup(ts, id)].incoming_port;
            assert(jj == j);
            lemma_delete_preserves_wf(ts, ps, id);
        }
        RegistryOutcome::Accepted
    }

    /// A snapshot of the live tunnels, in creation order.
    pub fn status(&self) -> (r: Vec<Tunnel>)
        ensures
            r@ == self.tunnels@,
    {
        let mut out: Vec<Tunnel> = Vec::new();
        let mut k: usize = 0;
        while k < self.tunnels.len()
            invariant
                k <= self.tunnels@.len(),
                out@ =~= self.tunnels@.take(k as int),
            decreases self.tunnels@.len() - k,
        {
            let t = self.tunnels[k];
            out.push(t);
            k = k + 1;
        }
        proof {
            assert(self.tunnels@.take(self.tunnels@.len() as int) =~= self.tunnels@);
        }
        out
    }
}

// ------------------------- laws -------------------------

/// One registry mutation, for stating laws over whole histories.
pub enum RegistryOp {
    Create { id: u128, incoming_port: u16, destination: Destination },
    Modify { id: u128, destination: Destination },
    Delete { id: u128 },
}

/// Apply one operation to a state.
pub open spec fn spec_apply_op(ts: Seq<Tunnel>, ps: Seq<u16>, op: RegistryOp) -> (
    Seq<Tunnel>,
    Seq<u16>,
) {
    match op {
        RegistryOp::Create { id, incoming_port, destination } => {
            let r = spec_create(ts, ps, id, incoming_port, destination);
            (r.0, r.1)
        },
        RegistryOp::Modify { id, destination } => (spec_modify(ts, id, destination).0, ps),
        RegistryOp::Delete { id } => {
            let r = spec_delete(ts, ps, id);
            (r.0, r.1)
        },
    }
}

/// Apply a sequence of operations, first to last.
pub open spec fn spec_apply_ops(ts: Seq<Tunnel>, ps: Seq<u16>, ops: Seq<RegistryOp>) -> (
    Seq<Tunnel>,
    Seq<u16>,
)
    decreases ops.len(),
{
    if ops.len() == 0 {
        (ts, ps)
    } else {
        let r = spec_apply_op(ts, ps, ops[0]);
        spec_apply_ops(r.0, r.1, ops.drop_first())
    }
}

/// After any sequence of create/modify/delete operations on a well-formed
/// registry, the invariants still hold; in particular the port list holds
/// exactly the `incoming_port` values of the live tunnel records.
pub proof fn lemma_ports_match_after_any_ops(ts: Seq<Tunnel>, ps: Seq<u16>, ops: Seq<RegistryOp>)
    requires
        wf_tunnels(ts, ps),
    ensures
        wf_tunnels(spec_apply_ops(ts, ps, ops).0, spec_apply_ops(ts, ps, ops).1),
        forall|p: u16| #[trigger] spec_apply_ops(ts, ps, ops).1.contains(p) <==> spec_port_used(
            spec_apply_ops(ts, ps, ops).0,
            p,
        ),
    decreases ops.len(),
{
    if ops.len() > 0 {
        let r = spec_apply_op(ts, ps, ops[0]);
        match ops[0] {
            RegistryOp::Create { id, incoming_port, destination } => {
                lemma_create_preserves_wf(ts, ps, id, incoming_port, destination);
            },
            RegistryOp::Modify { id, destination } => {
                lemma_modify_preserves_wf(ts, ps, id, destination);
            },
            RegistryOp::Delete { id } => {
                lemma_delete_preserves_wf(ts, ps, id);
            },
        }
        lemma_ports_match_after_any_ops(r.0, r.1, ops.drop_first());
    }
}

/// Deleting twice is harmless: whatever the first delete did, a second
/// delete of the same id returns `NotFound` and leaves the registry
/// unchanged.
pub proof fn lemma_delete_idempotent(ts: Seq<Tunnel>, ps: Seq<u16>, id: u128)
    requires
        wf_tunnels(ts, ps),
    ensures
        spec_delete(spec_delete(ts, ps, id).0, spec_delete(ts, ps, id).1, id).0 == spec_delete(
            ts,
            ps,
            id,
        ).0,
        spec_delete(spec_delete(ts, ps, id).0, spec_delete(ts, ps, id).1, id).1 == spec_delete(
            ts,
            ps,
            id,
        ).1,
        spec_delete(spec_delete(ts, ps, id).0, spec_delete(ts, ps, id).1, id).2
            == RegistryOutcome::NotFound,
{
    if spec_has_id(ts, id) {
        let k = spec_lookup(ts, id);
        assert(0 <= k < ts.len() && ts[k].id == id);
        let tsn = spec_delete(ts, ps, id).0;
        assert(tsn =~= ts.remove(k));
        assert(!spec_has_id(tsn, id)) by {
            if spec_has_id(tsn, id) {
                let m = choose|m: int| 0 <= m < tsn.len() && (#[trigger] tsn[m]).id == id;
                if m < k {
                    assert(ts[m].id == id);
                } else {
                    assert(ts[m + 1].id == id);
                }
            }
        }
    }
}

} // verus!
