//! The blockchain node's protocol: the messages peers exchange, the pool of
//! pending transactions, and what a node answers and does on each message.
//!
//! Blocks and transactions are carried as opaque payloads of the caller's
//! choosing (`B`, `T`), each labelled with the text that the protocol reads
//! of it: a block's hash, a transaction's id.
use vstd::prelude::*;

use crate::hosts::{KnownHosts, spec_register};
use crate::split::{split_first, free_of, lemma_split_at_first, lemma_no_separator, lemma_free_extend};
use vstd::string::StrSliceExecFns;

verus! {

/// A block, known by its hash.
#[derive(Debug, Clone, PartialEq)]
pub struct Block<B> {
    pub hash: String,
    pub data: B,
}

/// A transaction, known by its id.
#[derive(Debug, Clone, PartialEq)]
pub struct Transaction<T> {
    pub id: String,
    pub data: T,
}

/// The messages that nodes exchange.
#[derive(Debug, Clone, PartialEq)]
pub enum Message<B, T> {
    /// "I listen on `port`": the receiver registers the sender.
    Ping { port: u16 },
    /// The acknowledgement of every message that asks for nothing.
    Pong { port: u16 },
    /// A freshly mined block, to be appended to the receiver's chain.
    NewBlock(Block<B>),
    /// Asks for the block at `index` of the receiver's chain.
    RequestBlock { index: usize },
    /// The answer to `RequestBlock`.
    Block(Block<B>),
    /// A transaction for the receiver's pool of pending transactions.
    NewTransaction(Transaction<T>),
    /// Asks for the receiver's whole chain.
    RequestChain,
    /// A whole chain and its length.
    ChainResponse { blocks: Vec<Block<B>>, length: usize },
    /// Asks for the hashes of the receiver's blocks.
    RequestInventory,
    /// The hashes of a chain's blocks, in chain order.
    Inventory { block_hashes: Vec<String> },
}

/// A node's answer to a `Ping`: a `Pong` that tells the node's own
/// listening port, so that the pinging peer learns where to reach it.
pub open spec fn spec_pong<B, T>(my_port: u16) -> Message<B, T> {
    Message::Pong { port: my_port }
}

/// The acknowledgement of every other message that asks for nothing: a
/// `Pong` of port 0, which tells no port.
pub open spec fn spec_ack<B, T>() -> Message<B, T> {
    Message::Pong { port: 0 }
}

/// The hashes of the blocks of `chain`, in chain order.
pub open spec fn chain_hashes<B>(chain: Seq<Block<B>>) -> Seq<String> {
    chain.map_values(|b: Block<B>| b.hash)
}

/// The text of each hash in `hashes`.
pub open spec fn hash_texts(hashes: Seq<String>) -> Seq<Seq<char>> {
    hashes.map_values(|h: String| h@)
}

/// The entries of an announced inventory that the local chain lacks: each
/// `(position in the inventory, hash)` whose hash is not among `local`, in
/// inventory order.
pub open spec fn missing_blocks(local: Seq<Seq<char>>, announced: Seq<Seq<char>>) -> Seq<
    (int, Seq<char>),
>
    decreases announced.len(),
{
    if announced.len() == 0 {
        Seq::empty()
    } else {
        let earlier = missing_blocks(local, announced.drop_last());
        let i = announced.len() - 1;
        if local.contains(announced[i]) {
            earlier
        } else {
            earlier.push((i, announced[i]))
        }
    }
}

/// An entry is reported missing exactly when it is an entry of the
/// announced inventory whose hash is not among the local hashes: each
/// `(i, h)` with `h == announced[i]` and `h` not local, and nothing else.
pub proof fn lemma_missing_exactly(local: Seq<Seq<char>>, announced: Seq<Seq<char>>)
    ensures
        forall|i: int, h: Seq<char>|
            #[trigger] missing_blocks(local, announced).contains((i, h)) <==> (0 <= i
                < announced.len() && h == announced[i] && !local.contains(h)),
    decreases announced.len(),
{
    let result = missing_blocks(local, announced);
    if announced.len() == 0 {
        assert forall|i: int, h: Seq<char>| #[trigger] result.contains((i, h)) <==> (0 <= i
            < announced.len() && h == announced[i] && !local.contains(h)) by {}
    } else {
        let front = announced.drop_last();
        let earlier = missing_blocks(local, front);
        let n = announced.len() - 1;
        lemma_missing_exactly(local, front);
        assert forall|i: int, h: Seq<char>| #[trigger] result.contains((i, h)) <==> (0 <= i
            < announced.len() && h == announced[i] && !local.contains(h)) by {
            if local.contains(announced[n]) {
                assert(result == earlier);
                if earlier.contains((i, h)) {
                    assert(front[i] == announced[i]);
                }
                if 0 <= i < announced.len() && h == announced[i] && !local.contains(h) {
                    assert(i != n);
                    assert(front[i] == announced[i]);
                    assert(earlier.contains((i, h)));
                }
            } else {
                assert(result == earlier.push((n, announced[n])));
                if result.contains((i, h)) {
                    let k = choose|k: int| 0 <= k < result.len() && result[k] == (i, h);
                    if k < earlier.len() {
                        assert(result[k] == earlier[k]);
                        assert(earlier.contains((i, h)));
                        assert(front[i] == announced[i]);
                    }
                }
                if 0 <= i < announced.len() && h == announced[i] && !local.contains(h) {
                    if i == n {
                        assert(result[earlier.len() as int] == (i, h));
                    } else {
                        assert(front[i] == announced[i]);
                        assert(earlier.contains((i, h)));
                        let k = choose|k: int| 0 <= k < earlier.len() && earlier[k] == (i, h);
                        assert(result[k] == (i, h));
                    }
                }
            }
        }
    }
}

/// Missing entries as the contracts see them.
pub open spec fn missing_texts(missing: Seq<(usize, String)>) -> Seq<(int, Seq<char>)> {
    missing.map_values(|m: (usize, String)| missing_view(m))
}

/// A missing entry as the contracts see it.
pub open spec fn missing_view(m: (usize, String)) -> (int, Seq<char>) {
    (m.0 as int, m.1@)
}

/// No id occurs twice among `txs`.
pub open spec fn distinct_ids<T>(txs: Seq<Transaction<T>>) -> bool {
    forall|i: int, j: int| 0 <= i < j < txs.len() ==> txs[i].id@ != txs[j].id@
}

/// Some transaction of `txs` has the id `id`.
pub open spec fn has_id<T>(txs: Seq<Transaction<T>>, id: Seq<char>) -> bool {
    exists|i: int| 0 <= i < txs.len() && #[trigger] txs[i].id@ == id
}

/// The pool after `tx` arrived: unchanged when a transaction with its id is
/// already pending, else `tx` appended at the end.
pub open spec fn spec_add_transaction<T>(txs: Seq<Transaction<T>>, tx: Transaction<T>) -> Seq<
    Transaction<T>,
> {
    if has_id(txs, tx.id@) {
        txs
    } else {
        txs.push(tx)
    }
}

/// A transaction that arrives twice is pending once: the second arrival
/// leaves the pool as the first left it.
pub proof fn lemma_add_transaction_idempotent<T>(txs: Seq<Transaction<T>>, tx: Transaction<T>)
    ensures
        has_id(spec_add_transaction(txs, tx), tx.id@),
        spec_add_transaction(spec_add_transaction(txs, tx), tx) == spec_add_transaction(txs, tx),
{
    let after = spec_add_transaction(txs, tx);
    if !has_id(txs, tx.id@) {
        assert(after[after.len() - 1] == tx);
    }
}

/// Adding a transaction drops no pending one: every pending transaction
/// keeps its place, a transaction with a new id makes the pool exactly one
/// longer and stands last, and one whose id is pending changes nothing.
pub proof fn lemma_add_transaction_keeps_pending<T>(txs: Seq<Transaction<T>>, tx: Transaction<T>)
    ensures
        spec_add_transaction(txs, tx).len() == txs.len() + (if has_id(txs, tx.id@) {
            0int
        } else {
            1int
        }),
        forall|i: int| 0 <= i < txs.len() ==> #[trigger] spec_add_transaction(txs, tx)[i] == txs[i],
        !has_id(txs, tx.id@) ==> spec_add_transaction(txs, tx)[txs.len() as int] == tx,
        forall|id: Seq<char>| has_id(txs, id) ==> #[trigger] has_id(spec_add_transaction(txs, tx), id),
{
    let after = spec_add_transaction(txs, tx);
    assert forall|id: Seq<char>| has_id(txs, id) implies #[trigger] has_id(after, id) by {
        let k = choose|k: int| 0 <= k < txs.len() && #[trigger] txs[k].id@ == id;
        assert(after[k] == txs[k]);
    }
}

/// Putting transactions back into a pool drops no pending one and leaves
/// every one of them pending: the pool keeps its transactions in their
/// places, each added id is pending afterwards, and what comes after the old
/// pool is taken from the added transactions.
pub proof fn lemma_add_all_keeps<T>(pool: Seq<Transaction<T>>, txs: Seq<Transaction<T>>)
    ensures
        pool.len() <= spec_add_all(pool, txs).len() <= pool.len() + txs.len(),
        forall|i: int| 0 <= i < pool.len() ==> #[trigger] spec_add_all(pool, txs)[i] == pool[i],
        forall|j: int| 0 <= j < txs.len() ==> has_id(spec_add_all(pool, txs), #[trigger] txs[j].id@),
        forall|id: Seq<char>| has_id(pool, id) ==> #[trigger] has_id(spec_add_all(pool, txs), id),
        forall|k: int|
            pool.len() <= k < spec_add_all(pool, txs).len() ==> exists|j: int|
                0 <= j < txs.len() && #[trigger] spec_add_all(pool, txs)[k] == txs[j],
    decreases txs.len(),
{
    let result = spec_add_all(pool, txs);
    if txs.len() == 0 {
        assert forall|id: Seq<char>| has_id(pool, id) implies #[trigger] has_id(result, id) by {}
    } else {
        let front = txs.drop_last();
        let prev = spec_add_all(pool, front);
        let last = txs.last();
        lemma_add_all_keeps(pool, front);
        lemma_add_transaction_keeps_pending(prev, last);
        assert(result == spec_add_transaction(prev, last));
        assert forall|i: int| 0 <= i < pool.len() implies #[trigger] result[i] == pool[i] by {
            assert(result[i] == prev[i]);
        }
        lemma_add_transaction_idempotent(prev, last);
        assert forall|j: int| 0 <= j < txs.len() implies has_id(result, #[trigger] txs[j].id@) by {
            if j < txs.len() - 1 {
                assert(front[j] == txs[j]);
                assert(has_id(prev, front[j].id@));
            }
        }
        assert forall|id: Seq<char>| has_id(pool, id) implies #[trigger] has_id(result, id) by {
            assert(has_id(prev, id));
        }
        assert forall|k: int| pool.len() <= k < result.len() implies exists|j: int|
            0 <= j < txs.len() && #[trigger] result[k] == txs[j] by {
            if k < prev.len() {
                let j = choose|j: int| 0 <= j < front.len() && #[trigger] prev[k] == front[j];
                assert(result[k] == prev[k]);
                assert(front[j] == txs[j]);
            } else {
                assert(result[k] == last);
                assert(txs[txs.len() - 1] == last);
            }
        }
    }
}

/// Adding a transaction never makes the pool hold an id twice.
pub proof fn lemma_add_transaction_keeps_distinct<T>(txs: Seq<Transaction<T>>, tx: Transaction<T>)
    requires
        distinct_ids(txs),
    ensures
        distinct_ids(spec_add_transaction(txs, tx)),
{
    if !has_id(txs, tx.id@) {
        let after = txs.push(tx);
        assert forall|i: int, j: int| 0 <= i < j < after.len() implies after[i].id@
            != after[j].id@ by {
            if j == after.len() - 1 {
                assert(after[i] == txs[i]);
            }
        }
    }
}

/// An inventory whose every hash is among `local` reports nothing missing.
pub proof fn lemma_nothing_missing(local: Seq<Seq<char>>, announced: Seq<Seq<char>>)
    requires
        forall|i: int| 0 <= i < announced.len() ==> local.contains(#[trigger] announced[i]),
    ensures
        missing_blocks(local, announced) == Seq::<(int, Seq<char>)>::empty(),
    decreases announced.len(),
{
    if announced.len() > 0 {
        let earlier = announced.drop_last();
        assert forall|i: int| 0 <= i < earlier.len() implies local.contains(#[trigger] earlier[i]) by {
            assert(earlier[i] == announced[i]);
        }
        lemma_nothing_missing(local, earlier);
        assert(local.contains(announced[announced.len() - 1]));
    }
}

/// A node that compares its own inventory with its own chain finds no
/// block missing.
pub proof fn lemma_own_inventory_complete<B>(chain: Seq<Block<B>>)
    ensures
        missing_blocks(hash_texts(chain_hashes(chain)), hash_texts(chain_hashes(chain)))
            == Seq::<(int, Seq<char>)>::empty(),
{
    let h = hash_texts(chain_hashes(chain));
    assert forall|i: int| 0 <= i < h.len() implies h.contains(#[trigger] h[i]) by {}
    lemma_nothing_missing(h, h);
}

/// The transactions waiting to be mined, in arrival order, each id once.
pub struct Mempool<T> {
    txs: Vec<Transaction<T>>,
}

impl<T> View for Mempool<T> {
    type V = Seq<Transaction<T>>;

    closed spec fn view(&self) -> Seq<Transaction<T>> {
        self.txs@
    }
}

impl<T> Mempool<T> {
    #[verifier::type_invariant]
    closed spec fn unique_ids(self) -> bool {
        distinct_ids(self.txs@)
    }

    /// An empty pool.
    pub fn new() -> (pool: Self)
        ensures
            pool@ == Seq::<Transaction<T>>::empty(),
    {
        Mempool { txs: Vec::new() }
    }

    /// How many transactions are pending.
    pub fn len(&self) -> (n: usize)
        ensures
            n == self@.len(),
    {
        self.txs.len()
    }

    /// The pending transactions, in arrival order.
    pub fn transactions(&self) -> (txs: &Vec<Transaction<T>>)
        ensures
            txs@ == self@,
            distinct_ids(self@),
    {
        proof {
            use_type_invariant(self);
        }
        &self.txs
    }

    /// Whether a transaction with id `id` is pending.
    pub fn contains_id(&self, id: &String) -> (found: bool)
        ensures
            found == has_id(self@, id@),
    {
        let n = self.txs.len();
        let mut i: usize = 0;
        while i < n
            invariant
                n == self.txs@.len(),
                0 <= i <= n,
                forall|j: int| 0 <= j < i ==> self.txs@[j].id@ != id@,
            decreases n - i,
        {
            if self.txs[i].id == *id {
                return true;
            }
            i = i + 1;
        }
        false
    }

    /// Takes every pending transaction out of the pool, in arrival order,
    /// leaving it empty (a `mine` command puts them into a block).
    pub fn take_all(&mut self) -> (taken: Vec<Transaction<T>>)
        ensures
            taken@ == old(self)@,
            final(self)@ == Seq::<Transaction<T>>::empty(),
            distinct_ids(taken@),
    {
        proof {
            use_type_invariant(&*self);
        }
        let mut taken: Vec<Transaction<T>> = Vec::new();
        std::mem::swap(&mut taken, &mut self.txs);
        assert(self.txs@ =~= Seq::<Transaction<T>>::empty());
        taken
    }

    /// Adds `tx` unless a transaction with the same id is pending. Returns
    /// whether it was added.
    pub fn add(&mut self, tx: Transaction<T>) -> (added: bool)
        ensures
            added == !has_id(old(self)@, tx.id@),
            final(self)@ == spec_add_transaction(old(self)@, tx),
            has_id(final(self)@, tx.id@),
            distinct_ids(final(self)@),
            final(self)@.len() == old(self)@.len() + (if added {
                1int
            } else {
                0int
            }),
            forall|i: int| 0 <= i < old(self)@.len() ==> #[trigger] final(self)@[i] == old(self)@[i],
    {
        proof {
            use_type_invariant(&*self);
            lemma_add_transaction_keeps_pending(self@, tx);
        }
        if self.contains_id(&tx.id) {
            return false;
        }
        let ghost before = self@;
        let ghost t = tx;
        let mut txs: Vec<Transaction<T>> = Vec::new();
        std::mem::swap(&mut txs, &mut self.txs);
        txs.push(tx);
        assert(txs@ == before.push(t));
        proof {
            lemma_add_transaction_keeps_distinct(before, t);
        }
        self.txs = txs;
        assert(self@[self@.len() - 1].id@ == t.id@);
        true
    }
}

/// What a node must do, besides answering, after a message.
#[derive(Debug, PartialEq)]
pub enum Effect<B> {
    /// Nothing more.
    Nothing,
    /// A `Ping` was registered; `new_host` tells whether the peer was unknown.
    HostSeen { new_host: bool },
    /// Offer `candidate` to the blockchain, which adopts it when it is valid
    /// and longer than the local chain.
    ReplaceChain(Vec<Block<B>>),
    /// A `RequestBlock` asked for an index past the end of the chain.
    BlockNotFound,
    /// A `NewTransaction` arrived; `added` tells whether it was new.
    TransactionSeen { added: bool },
    /// An `Inventory` announced these `(index, hash)` entries that the local
    /// chain lacks.
    MissingBlocks(Vec<(usize, String)>),
}

/// A node's answer to a message and what else it must do.
#[derive(Debug, PartialEq)]
pub struct Handled<B, T> {
    pub reply: Message<B, T>,
    pub effect: Effect<B>,
}

/// The hashes of `chain`'s blocks, in order.
pub fn inventory<B>(chain: &Vec<Block<B>>) -> (hashes: Vec<String>)
    ensures
        hashes@ == chain_hashes(chain@),
{
    let n = chain.len();
    let mut hashes: Vec<String> = Vec::new();
    let mut i: usize = 0;
    while i < n
        invariant
            n == chain@.len(),
            0 <= i <= n,
            hashes@ == chain_hashes(chain@.subrange(0, i as int)),
        decreases n - i,
    {
        let h = chain[i].hash.clone();
        hashes.push(h);
        assert(hashes@ =~= chain_hashes(chain@.subrange(0, i + 1)));
        i = i + 1;
    }
    assert(chain@.subrange(0, n as int) =~= chain@);
    hashes
}

/// Whether `hash` is among `hashes`.
fn contains_hash(hashes: &Vec<String>, hash: &String) -> (found: bool)
    ensures
        found == hash_texts(hashes@).contains(hash@),
{
    let n = hashes.len();
    let mut i: usize = 0;
    while i < n
        invariant
            n == hashes@.len(),
            0 <= i <= n,
            forall|j: int| 0 <= j < i ==> hashes@[j]@ != hash@,
        decreases n - i,
    {
        if hashes[i] == *hash {
            assert(hash_texts(hashes@)[i as int] == hash@);
            return true;
        }
        i = i + 1;
    }
    proof {
        if hash_texts(hashes@).contains(hash@) {
            let k = choose|k: int| 0 <= k < n && hash_texts(hashes@)[k] == hash@;
            assert(hashes@[k]@ == hash@);
        }
    }
    false
}

/// The entries of the announced inventory `announced` whose hash is not
/// among `local`: `(index in announced, hash)`, in order.
pub fn find_missing(local: &Vec<String>, announced: &Vec<String>) -> (missing: Vec<(usize, String)>)
    ensures
        missing@.map_values(|m: (usize, String)| missing_view(m)) == missing_blocks(
            hash_texts(local@),
            hash_texts(announced@),
        ),
        forall|i: int, h: Seq<char>|
            #[trigger] missing_texts(missing@).contains((i, h))
                <==> (0 <= i < announced@.len() && h == announced@[i]@ && !hash_texts(
                local@,
            ).contains(h)),
{
    proof {
        lemma_missing_exactly(hash_texts(local@), hash_texts(announced@));
    }
    let n = announced.len();
    let mut missing: Vec<(usize, String)> = Vec::new();
    let mut i: usize = 0;
    while i < n
        invariant
            n == announced@.len(),
            0 <= i <= n,
            missing@.map_values(|m: (usize, String)| missing_view(m)) == missing_blocks(
                hash_texts(local@),
                hash_texts(announced@.subrange(0, i as int)),
            ),
        decreases n - i,
    {
        let ghost before = missing@;
        let ghost prefix = hash_texts(announced@.subrange(0, i + 1));
        assert(prefix.drop_last() =~= hash_texts(announced@.subrange(0, i as int)));
        assert(prefix[i as int] == announced@[i as int]@);
        if !contains_hash(local, &announced[i]) {
            let h = announced[i].clone();
            missing.push((i, h));
            assert(missing@.map_values(|m: (usize, String)| missing_view(m)) =~= before.map_values(
                |m: (usize, String)| missing_view(m),
            ).push((i as int, announced@[i as int]@)));
        }
        i = i + 1;
    }
    assert(announced@.subrange(0, n as int) =~= announced@);
    missing
}

/// What the node listening on `my_port` answers to `msg` from the peer at
/// `client_ip`, given its chain `chain`, and what else it does: a `Ping` registers
/// `(client_ip, port)` among `hosts`, a `NewTransaction` joins `mempool`
/// unless its id is pending, a block or chain on offer is handed to the
/// blockchain, and an `Inventory` is compared with the local hashes. Every
/// `Ping` is answered with a `Pong` that tells `my_port`, and every other
/// message that asks for nothing with a `Pong` of port 0.
pub fn handle_message<B, T>(
    msg: Message<B, T>,
    client_ip: String,
    my_port: u16,
    chain: Vec<Block<B>>,
    hosts: &mut KnownHosts,
    mempool: &mut Mempool<T>,
) -> (handled: Handled<B, T>)
    ensures
        msg is Ping ==> final(hosts)@ == spec_register(old(hosts)@, client_ip@, msg->Ping_port),
        !(msg is Ping) ==> final(hosts)@ == old(hosts)@,
        msg is NewTransaction ==> final(mempool)@ == spec_add_transaction(
            old(mempool)@,
            msg->NewTransaction_0,
        ),
        !(msg is NewTransaction) ==> final(mempool)@ == old(mempool)@,
        match msg {
            Message::Ping { port } => {
                &&& handled.reply == spec_pong::<B, T>(my_port)
                &&& handled.effect == Effect::<B>::HostSeen {
                    new_host: !old(hosts)@.contains((client_ip@, port)),
                }
            },
            Message::Pong { .. } => handled.reply == spec_ack::<B, T>() && handled.effect
                is Nothing,
            Message::NewBlock(block) => {
                &&& handled.reply == spec_ack::<B, T>()
                &&& handled.effect matches Effect::ReplaceChain(candidate)
                &&& candidate@ == chain@.push(block)
            },
            Message::RequestBlock { index } => if index < chain@.len() {
                handled.reply == Message::<B, T>::Block(chain@[index as int]) && handled.effect
                    is Nothing
            } else {
                handled.reply == spec_ack::<B, T>() && handled.effect is BlockNotFound
            },
            Message::Block(_) => handled.reply == spec_ack::<B, T>() && handled.effect is Nothing,
            Message::NewTransaction(tx) => {
                &&& handled.reply == spec_ack::<B, T>()
                &&& handled.effect == Effect::<B>::TransactionSeen {
                    added: !has_id(old(mempool)@, tx.id@),
                }
            },
            Message::RequestChain => {
                &&& handled.reply matches Message::ChainResponse { blocks, length }
                &&& blocks@ == chain@
                &&& length == chain@.len()
                &&& handled.effect is Nothing
            },
            Message::ChainResponse { blocks, .. } => {
                &&& handled.reply == spec_ack::<B, T>()
                &&& handled.effect matches Effect::ReplaceChain(candidate)
                &&& candidate@ == blocks@
            },
            Message::RequestInventory => {
                &&& handled.reply matches Message::Inventory { block_hashes }
                &&& block_hashes@ == chain_hashes(chain@)
                &&& handled.effect is Nothing
            },
            Message::Inventory { block_hashes } => {
                &&& handled.reply == spec_ack::<B, T>()
                &&& handled.effect matches Effect::MissingBlocks(missing)
                &&& missing@.map_values(|m: (usize, String)| missing_view(m)) == missing_blocks(
                    hash_texts(chain_hashes(chain@)),
                    hash_texts(block_hashes@),
                )
            },
        },
{
    match msg {
        Message::Ping { port } => {
            let new_host = hosts.register(client_ip, port);
            Handled { reply: Message::Pong { port: my_port }, effect: Effect::HostSeen { new_host } }
        },
        Message::Pong { .. } => Handled { reply: Message::Pong { port: 0 }, effect: Effect::Nothing },
        Message::NewBlock(block) => {
            let mut candidate = chain;
            candidate.push(block);
            Handled { reply: Message::Pong { port: 0 }, effect: Effect::ReplaceChain(candidate) }
        },
        Message::RequestBlock { index } => {
            if index < chain.len() {
                let mut blocks = chain;
                let block = blocks.swap_remove(index);
                Handled { reply: Message::Block(block), effect: Effect::Nothing }
            } else {
                Handled { reply: Message::Pong { port: 0 }, effect: Effect::BlockNotFound }
            }
        },
        Message::Block(_) => Handled { reply: Message::Pong { port: 0 }, effect: Effect::Nothing },
        Message::NewTransaction(tx) => {
            let added = mempool.add(tx);
            Handled {
                reply: Message::Pong { port: 0 },
                effect: Effect::TransactionSeen { added },
            }
        },
        Message::RequestChain => {
            let length = chain.len();
            Handled {
                reply: Message::ChainResponse { blocks: chain, length },
                effect: Effect::Nothing,
            }
        },
        Message::ChainResponse { blocks, .. } => Handled {
            reply: Message::Pong { port: 0 },
            effect: Effect::ReplaceChain(blocks),
        },
        Message::RequestInventory => {
            let block_hashes = inventory(&chain);
            Handled { reply: Message::Inventory { block_hashes }, effect: Effect::Nothing }
        },
        Message::Inventory { block_hashes } => {
            let local = inventory(&chain);
            let missing = find_missing(&local, &block_hashes);
            Handled { reply: Message::Pong { port: 0 }, effect: Effect::MissingBlocks(missing) }
        },
    }
}

/// Ends a serialized message with the newline that delimits messages on a
/// connection.
pub fn frame(payload: Vec<u8>) -> (framed: Vec<u8>)
    ensures
        framed@ == payload@.push(10u8),
{
    let mut framed = payload;
    framed.push(10u8);
    framed
}

/// The chain a peer sent back to a `RequestChain`, if its reply is a
/// `ChainResponse`. A node offers it to its blockchain, which adopts it when
/// the peer is ahead: at start-up, and after a `chain` command.
pub fn chain_from_reply<B, T>(reply: Message<B, T>) -> (candidate: Option<Vec<Block<B>>>)
    ensures
        match reply {
            Message::ChainResponse { blocks, .. } => candidate == Some(blocks),
            _ => candidate is None,
        },
{
    match reply {
        Message::ChainResponse { blocks, .. } => Some(blocks),
        _ => None,
    }
}

/// A command typed at a node's prompt.
#[derive(Debug, PartialEq, Eq)]
pub enum Command {
    /// An empty line: nothing to do.
    Empty,
    /// `quit`: stop reading commands.
    Quit,
    /// `whoami`: show this node's public key and confirmed balance.
    WhoAmI,
    /// `send <to_address> <amount>`: pay `amount` coins to `to_address`.
    Send { to: String, amount: String },
    /// `send` without exactly an address and an amount after it.
    SendUsage,
    /// `mine`: mine the pending transactions into a block.
    Mine,
    /// `mempool`: show the pending transactions.
    ShowMempool,
    /// `chain`: show the local chain and ask every peer for its chain.
    ShowChain,
    /// `inventory`: ask every peer for its block hashes.
    Inventory,
    /// `ping`: announce this node's port to every peer.
    Ping,
    /// Anything else.
    Unknown,
}

/// A command as the contracts see it.
pub enum CommandView {
    Empty,
    Quit,
    WhoAmI,
    Send { to: Seq<char>, amount: Seq<char> },
    SendUsage,
    Mine,
    ShowMempool,
    ShowChain,
    Inventory,
    Ping,
    Unknown,
}

impl View for Command {
    type V = CommandView;

    open spec fn view(&self) -> CommandView {
        match self {
            Command::Empty => CommandView::Empty,
            Command::Quit => CommandView::Quit,
            Command::WhoAmI => CommandView::WhoAmI,
            Command::Send { to, amount } => CommandView::Send { to: to@, amount: amount@ },
            Command::SendUsage => CommandView::SendUsage,
            Command::Mine => CommandView::Mine,
            Command::ShowMempool => CommandView::ShowMempool,
            Command::ShowChain => CommandView::ShowChain,
            Command::Inventory => CommandView::Inventory,
            Command::Ping => CommandView::Ping,
            Command::Unknown => CommandView::Unknown,
        }
    }
}

/// The arguments after `send `: an address, one space, and an amount, both
/// nonempty and the amount without spaces.
pub open spec fn spec_send(args: Seq<char>) -> CommandView {
    match split_first(args, ' ') {
        Some((to, amount)) => if to.len() > 0 && amount.len() > 0 && free_of(amount, ' ') {
            CommandView::Send { to, amount }
        } else {
            CommandView::SendUsage
        },
        None => CommandView::SendUsage,
    }
}

/// The command that the (trimmed) line `input` names.
pub open spec fn spec_command(input: Seq<char>) -> CommandView {
    if input.len() == 0 {
        CommandView::Empty
    } else if input == "quit"@ {
        CommandView::Quit
    } else if input == "whoami"@ {
        CommandView::WhoAmI
    } else if input == "send"@ {
        CommandView::SendUsage
    } else if input.len() >= 5 && input.subrange(0, 5) == "send "@ {
        spec_send(input.subrange(5, input.len() as int))
    } else if input == "mine"@ {
        CommandView::Mine
    } else if input == "mempool"@ {
        CommandView::ShowMempool
    } else if input == "chain"@ {
        CommandView::ShowChain
    } else if input == "inventory"@ {
        CommandView::Inventory
    } else if input == "ping"@ {
        CommandView::Ping
    } else {
        CommandView::Unknown
    }
}

/// A line `send <address> <amount>` reads as a payment of exactly that
/// amount to exactly that address, for every nonempty address and amount
/// without spaces, whatever their lengths (a public key is 130 characters).
pub proof fn lemma_send_line(to: Seq<char>, amount: Seq<char>)
    requires
        to.len() > 0,
        free_of(to, ' '),
        amount.len() > 0,
        free_of(amount, ' '),
    ensures
        spec_command("send "@ + to + seq![' '] + amount) == (CommandView::Send { to, amount }),
{
    reveal_strlit("send ");
    reveal_strlit("send");
    reveal_strlit("quit");
    reveal_strlit("whoami");
    let line = "send "@ + to + seq![' '] + amount;
    let args = to + seq![' '] + amount;
    assert(line.len() == 5 + to.len() + 1 + amount.len());
    assert(line != "quit"@);
    assert(line != "whoami"@);
    assert(line != "send"@);
    assert(line.subrange(0, 5) =~= "send "@);
    assert(line.subrange(5, line.len() as int) =~= args);
    assert(args.subrange(0, to.len() as int) =~= to);
    assert(args.subrange(to.len() as int + 1, args.len() as int) =~= amount);
    lemma_split_at_first(args, ' ', to.len() as int);
}

/// Whether `input` is the word `word`.
fn is_word(input: &String, word: &str) -> (same: bool)
    ensures
        same == (input@ == word@),
{
    let w = word.to_string();
    *input == w
}

/// Reads the arguments of a `send` line.
fn parse_send(args: &str) -> (command: Command)
    ensures
        command@ == spec_send(args@),
{
    let n = args.unicode_len();
    let mut k: usize = 0;
    while k < n
        invariant
            n == args@.len(),
            0 <= k <= n,
            free_of(args@.subrange(0, k as int), ' '),
        ensures
            0 <= k <= n,
            free_of(args@.subrange(0, k as int), ' '),
            k < n ==> args@[k as int] == ' ',
        decreases n - k,
    {
        if args.get_char(k) == ' ' {
            break;
        }
        proof {
            lemma_free_extend(args@, ' ', k as int);
        }
        k = k + 1;
    }
    if k == n {
        proof {
            assert(args@.subrange(0, n as int) =~= args@);
            lemma_no_separator(args@, ' ');
        }
        return Command::SendUsage;
    }
    proof {
        lemma_split_at_first(args@, ' ', k as int);
    }
    if k == 0 || k + 1 == n {
        return Command::SendUsage;
    }
    let amount = args.substring_char(k + 1, n);
    let m = amount.unicode_len();
    let mut j: usize = 0;
    while j < m
        invariant
            m == amount@.len(),
            0 <= j <= m,
            n == args@.len(),
            0 < k,
            k + 1 < n,
            amount@ == args@.subrange(k + 1, n as int),
            split_first(args@, ' ') == Some((args@.subrange(0, k as int), args@.subrange(k + 1, n as int))),
            free_of(amount@.subrange(0, j as int), ' '),
        decreases m - j,
    {
        if amount.get_char(j) == ' ' {
            assert(!free_of(amount@, ' ')) by {
                assert(amount@[j as int] == ' ');
            }
            return Command::SendUsage;
        }
        proof {
            lemma_free_extend(amount@, ' ', j as int);
        }
        j = j + 1;
    }
    assert(amount@.subrange(0, m as int) =~= amount@);
    let to = args.substring_char(0, k).to_string();
    let amount = amount.to_string();
    Command::Send { to, amount }
}

/// Reads the command in the (trimmed) line `input`.
pub fn parse_command(input: &str) -> (command: Command)
    ensures
        command@ == spec_command(input@),
{
    if input.is_empty() {
        return Command::Empty;
    }
    let line = input.to_string();
    if is_word(&line, "quit") {
        return Command::Quit;
    }
    if is_word(&line, "whoami") {
        return Command::WhoAmI;
    }
    if is_word(&line, "send") {
        return Command::SendUsage;
    }
    let n = input.unicode_len();
    if n >= 5 {
        let prefix = input.substring_char(0, 5).to_string();
        if is_word(&prefix, "send ") {
            return parse_send(input.substring_char(5, n));
        }
    }
    if is_word(&line, "mine") {
        Command::Mine
    } else if is_word(&line, "mempool") {
        Command::ShowMempool
    } else if is_word(&line, "chain") {
        Command::ShowChain
    } else if is_word(&line, "inventory") {
        Command::Inventory
    } else if is_word(&line, "ping") {
        Command::Ping
    } else {
        Command::Unknown
    }
}

/// The request a command sends to every peer, if it sends one: `chain` asks
/// for their chains, `inventory` for their block hashes, and `ping`
/// announces `my_port`. (`send` and `mine` broadcast what
/// `submit_transaction` and `finish_mining` give, once the blockchain has
/// made the transaction or the block.)
pub fn command_request<B, T>(command: &Command, my_port: u16) -> (request: Option<Message<B, T>>)
    ensures
        command is ShowChain ==> request == Some(Message::<B, T>::RequestChain),
        command is Inventory ==> request == Some(Message::<B, T>::RequestInventory),
        command is Ping ==> request == Some(Message::<B, T>::Ping { port: my_port }),
        !(command is ShowChain) && !(command is Inventory) && !(command is Ping) ==> request is None,
{
    match command {
        Command::ShowChain => Some(Message::RequestChain),
        Command::Inventory => Some(Message::RequestInventory),
        Command::Ping => Some(Message::Ping { port: my_port }),
        _ => None,
    }
}

/// Puts a transaction that this node made (for a `send` command) into its
/// pool, and gives the `NewTransaction` to broadcast to every peer: a copy
/// of the transaction when it was new, nothing when its id was already
/// pending.
pub fn submit_transaction<B, T: Clone>(mempool: &mut Mempool<T>, tx: Transaction<T>) -> (broadcast:
    Option<Message<B, T>>)
    ensures
        final(mempool)@ == spec_add_transaction(old(mempool)@, tx),
        has_id(old(mempool)@, tx.id@) ==> broadcast is None,
        !has_id(old(mempool)@, tx.id@) ==> (broadcast matches Some(Message::NewTransaction(sent))
            && sent.id == tx.id && cloned(tx.data, sent.data)),
{
    let copy = Transaction { id: tx.id.clone(), data: tx.data.clone() };
    if mempool.add(tx) {
        Some(Message::NewTransaction(copy))
    } else {
        None
    }
}

/// The pool after each of `txs` arrived, in order.
pub open spec fn spec_add_all<T>(pool: Seq<Transaction<T>>, txs: Seq<Transaction<T>>) -> Seq<
    Transaction<T>,
>
    decreases txs.len(),
{
    if txs.len() == 0 {
        pool
    } else {
        spec_add_transaction(spec_add_all(pool, txs.drop_last()), txs.last())
    }
}

/// Ends a `mine` command. `taken` are the transactions that were taken out
/// of the pool for the block; `accepted` tells whether the blockchain took
/// `block` onto its chain. An accepted block is broadcast as `NewBlock`; a
/// stale one is discarded, and its transactions go back to the pool, each
/// unless its id is pending again.
pub fn finish_mining<B, T>(
    mempool: &mut Mempool<T>,
    taken: Vec<Transaction<T>>,
    block: Block<B>,
    accepted: bool,
) -> (broadcast: Option<Message<B, T>>)
    ensures
        accepted ==> broadcast == Some(Message::<B, T>::NewBlock(block)) && final(mempool)@ == old(
            mempool,
        )@,
        !accepted ==> broadcast is None && final(mempool)@ == spec_add_all(old(mempool)@, taken@),
        forall|i: int| 0 <= i < old(mempool)@.len() ==> #[trigger] final(mempool)@[i] == old(
            mempool,
        )@[i],
        !accepted ==> forall|j: int|
            0 <= j < taken@.len() ==> has_id(final(mempool)@, #[trigger] taken@[j].id@),
{
    proof {
        lemma_add_all_keeps(mempool@, taken@);
    }
    if accepted {
        return Some(Message::NewBlock(block));
    }
    let ghost start = mempool@;
    let ghost all = taken@;
    let n = taken.len();
    let mut rest = taken;
    let mut k: usize = 0;
    while k < n
        invariant
            n == all.len(),
            0 <= k <= n,
            rest@ == all.subrange(k as int, n as int),
            mempool@ == spec_add_all(start, all.subrange(0, k as int)),
        decreases n - k,
    {
        let tx = rest.remove(0);
        assert(tx == all[k as int]);
        let ghost before = mempool@;
        mempool.add(tx);
        assert(all.subrange(0, k + 1).drop_last() =~= all.subrange(0, k as int));
        assert(rest@ =~= all.subrange(k + 1, n as int));
        k = k + 1;
    }
    assert(all.subrange(0, n as int) =~= all);
    None
}

} // verus!
