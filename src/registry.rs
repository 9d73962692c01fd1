use vstd::prelude::*;
use std::collections::HashMap;
use crate::client::{Client, ClientRecord, ClientState, TransactionError, record_of};
use crate::transaction::{InputTransaction, Transaction, amount_text, converted};

verus! {

broadcast use vstd::std_specs::hash::group_hash_axioms;

/// The state of client `id` in `m`; a client never seen is fresh.
pub open spec fn account_of(m: Map<u16, ClientState>, id: u16) -> ClientState {
    if m.contains_key(id) {
        m[id]
    } else {
        ClientState::fresh(id)
    }
}

/// Every tracked client is stored under its own id and is balanced.
pub open spec fn well_kept(m: Map<u16, ClientState>) -> bool {
    forall|id: u16| #[trigger] m.contains_key(id) ==> m[id].id == id && m[id].balanced()
}

/// The clients known so far, created on first reference.
pub struct ClientRegistry {
    clients: HashMap<u16, Client>,
    /// Client ids in order of first appearance, each once.
    order: Vec<u16>,
}

impl View for ClientRegistry {
    type V = Map<u16, ClientState>;

    closed spec fn view(&self) -> Map<u16, ClientState> {
        self.clients@.map_values(|c: Client| c@)
    }
}

impl ClientRegistry {
    pub closed spec fn wf(&self) -> bool {
        &&& well_kept(self@)
        &&& self.order@.no_duplicates()
        &&& forall|id: u16| self.clients@.contains_key(id) <==> #[trigger] self.order@.contains(id)
    }

    /// A registry that tracks no client.
    pub fn new() -> (r: ClientRegistry)
        ensures
            r.wf(),
            r@ == Map::<u16, ClientState>::empty(),
    {
        let r = ClientRegistry { clients: HashMap::new(), order: Vec::new() };
        assert(r@ =~= Map::<u16, ClientState>::empty());
        r
    }

    /// The client stored under `id`, if it is tracked.
    pub fn get(&self, id: u16) -> (r: Option<&Client>)
        ensures
            match r {
                Some(c) => self@.contains_key(id) && c@ == self@[id],
                None => !self@.contains_key(id),
            },
    {
        self.clients.get(&id)
    }

    /// Whether applying `tx` to client `id` keeps its balances within `i64`,
    /// which `apply` requires.
    pub fn can_apply(&self, id: u16, tx: &Transaction) -> (r: bool)
        ensures
            r == account_of(self@, id).step(*tx).fits(),
    {
        match self.clients.get(&id) {
            Some(c) => c.can_process(tx),
            None => {
                let fresh = Client::new(id);
                fresh.can_process(tx)
            },
        }
    }

    /// Makes sure client `id` is tracked, creating it fresh if it is new.
    pub fn resolve_or_create(&mut self, id: u16)
        requires
            old(self).wf(),
        ensures
            final(self).wf(),
            final(self)@ == old(self)@.insert(id, account_of(old(self)@, id)),
    {
        if !self.clients.contains_key(&id) {
            let ghost old_order = self.order@;
            assert(!old_order.contains(id));
            self.clients.insert(id, Client::new(id));
            self.order.push(id);
            proof {
                assert(self.order@[old_order.len() as int] == id);
                assert forall|k: u16| self.clients@.contains_key(k) <==> #[trigger] self.order@.contains(k) by {
                    if self.order@.contains(k) {
                        let j = choose|j: int| 0 <= j < self.order@.len() && self.order@[j] == k;
                        if j < old_order.len() {
                            assert(old_order[j] == k);
                        }
                    }
                    if k != id && old_order.contains(k) {
                        let j = choose|j: int| 0 <= j < old_order.len() && old_order[j] == k;
                        assert(self.order@[j] == k);
                    }
                }
            }
        }
        assert(self@ =~= old(self)@.insert(id, account_of(old(self)@, id)));
        assert(well_kept(self@));
    }

    /// Applies `tx` to client `id`, creating the client first if it is new,
    /// and reports the client's verdict.
    pub fn apply(&mut self, id: u16, tx: Transaction) -> (r: Result<(), TransactionError>)
        requires
            old(self).wf(),
            account_of(old(self)@, id).step(tx).fits(),
        ensures
            final(self).wf(),
            well_kept(final(self)@),
            final(self)@ == old(self)@.insert(id, account_of(old(self)@, id).step(tx)),
            r == account_of(old(self)@, id).outcome(tx),
    {
        let ghost before = self@;
        let ghost old_order = self.order@;
        let mut client = match self.clients.remove(&id) {
            Some(c) => {
                assert(old_order.contains(id));
                c
            },
            None => {
                self.order.push(id);
                proof {
                    assert(!old_order.contains(id));
                    assert(self.order@[old_order.len() as int] == id);
                    assert forall|k: u16| #[trigger] self.order@.contains(k) <==> (old_order.contains(k) || k == id) by {
                        if self.order@.contains(k) {
                            let j = choose|j: int| 0 <= j < self.order@.len() && self.order@[j] == k;
                            if j < old_order.len() {
                                assert(old_order[j] == k);
                            }
                        }
                        if old_order.contains(k) {
                            let j = choose|j: int| 0 <= j < old_order.len() && old_order[j] == k;
                            assert(self.order@[j] == k);
                        }
                    }
                }
                Client::new(id)
            },
        };
        assert(client@ == account_of(before, id));
        let r = client.process_transaction(tx);
        self.clients.insert(id, client);
        assert(self@ =~= before.insert(id, account_of(before, id).step(tx)));
        assert(self.order@.contains(id));
        assert forall|k: u16| self.clients@.contains_key(k) <==> #[trigger] self.order@.contains(k) by {
            if k != id {
                assert(self.order@.contains(k) <==> old_order.contains(k));
            }
        }
        r
    }

    /// A snapshot of every tracked client, one record each, in order of
    /// first appearance.
    pub fn snapshot_all(&self) -> (r: Vec<ClientRecord>)
        requires
            self.wf(),
        ensures
            r@.len() == self@.len(),
            forall|i: int| 0 <= i < r@.len() ==> self@.contains_key(#[trigger] r@[i].client)
                && r@[i] == record_of(self@[r@[i].client]),
            forall|i: int, j: int| 0 <= i < j < r@.len() ==> r@[i].client != r@[j].client,
    {
        let mut out: Vec<ClientRecord> = Vec::new();
        let mut i: usize = 0;
        while i < self.order.len()
            invariant
                self.wf(),
                i <= self.order@.len(),
                out@.len() == i,
                forall|k: int| 0 <= k < i ==> #[trigger] out@[k].client == self.order@[k],
                forall|k: int| 0 <= k < i ==> self@.contains_key(#[trigger] out@[k].client)
                    && out@[k] == record_of(self@[out@[k].client]),
            decreases self.order@.len() - i,
        {
            let id = self.order[i];
            assert(self.order@.contains(id));
            assert(self@.contains_key(id));
            match self.clients.get(&id) {
                Some(c) => {
                    assert(c@ == self@[id]);
                    out.push(ClientRecord::from_client(c));
                },
                None => {},
            }
            i = i + 1;
        }
        proof {
            self.order@.unique_seq_to_set();
            assert(self.order@.to_set() =~= self@.dom());
        }
        out
    }
}

/// The clients after processing `records` in order: a record that does not
/// convert, or whose effect would leave `i64`, is skipped.
pub open spec fn processed(records: Seq<InputTransaction>) -> Map<u16, ClientState>
    decreases records.len(),
{
    if records.len() == 0 {
        Map::empty()
    } else {
        let before = processed(records.drop_last());
        let rec = records.last();
        match converted(rec.tx_type@, rec.tx_id, amount_text(rec.amount)) {
            Ok(tx) => {
                let next = account_of(before, rec.client).step(tx);
                if next.fits() {
                    before.insert(rec.client, next)
                } else {
                    before
                }
            },
            Err(_) => before,
        }
    }
}

/// Processes all records in order into the clients they reference. Records
/// that fail to convert or that a client rejects are skipped.
pub fn clients_process_all_tx(records: &Vec<InputTransaction>) -> (r: ClientRegistry)
    ensures
        r.wf(),
        well_kept(r@),
        r@ == processed(records@),
{
    let mut clients = ClientRegistry::new();
    let mut i: usize = 0;
    while i < records.len()
        invariant
            i <= records@.len(),
            clients.wf(),
            clients@ == processed(records@.take(i as int)),
        decreases records@.len() - i,
    {
        let record = &records[i];
        assert(records@.take(i as int + 1).drop_last() =~= records@.take(i as int));
        match Transaction::from_input_transaction(record) {
            Ok(tx) => {
                if clients.can_apply(record.client, &tx) {
                    // a client's rejection only skips this record
                    let _ = clients.apply(record.client, tx);
                }
            },
            Err(_) => {},
        }
        i = i + 1;
    }
    assert(records@.take(records@.len() as int) =~= records@);
    clients
}

} // verus!
