use p2p::hosts::KnownHosts;
use p2p::node::{
    chain_from_reply, command_request, find_missing, finish_mining, frame, handle_message, inventory,
    parse_command, submit_transaction, Block, Command, Effect, Handled, Mempool, Message, Transaction,
};

type Msg = Message<&'static str, u32>;

const MY_PORT: u16 = 1248;

fn block(hash: &str, data: &'static str) -> Block<&'static str> {
    Block { hash: hash.to_string(), data }
}

fn tx(id: &str, data: u32) -> Transaction<u32> {
    Transaction { id: id.to_string(), data }
}

fn chain3() -> Vec<Block<&'static str>> {
    vec![block("h0", "genesis"), block("h1", "one"), block("h2", "two")]
}

fn handle(msg: Msg, chain: Vec<Block<&'static str>>) -> (Handled<&'static str, u32>, KnownHosts, Mempool<u32>) {
    let mut hosts = KnownHosts::new();
    let mut pool = Mempool::new();
    let handled = handle_message(msg, "192.168.0.5".to_string(), MY_PORT, chain, &mut hosts, &mut pool);
    (handled, hosts, pool)
}

#[test]
fn ping_registers_the_sender_and_answers_pong() {
    let (handled, hosts, pool) = handle(Message::Ping { port: 4000 }, chain3());
    assert_eq!(handled.reply, Message::Pong { port: MY_PORT });
    assert_eq!(handled.effect, Effect::HostSeen { new_host: true });
    assert_eq!(hosts.to_vec(), vec![("192.168.0.5".to_string(), 4000)]);
    assert_eq!(pool.len(), 0);
}

#[test]
fn ping_twice_registers_once() {
    let mut hosts = KnownHosts::new();
    let mut pool: Mempool<u32> = Mempool::new();
    let first = handle_message::<&str, u32>(Message::Ping { port: 4000 }, "1.1.1.1".to_string(), MY_PORT, Vec::new(), &mut hosts, &mut pool);
    let second = handle_message::<&str, u32>(Message::Ping { port: 4000 }, "1.1.1.1".to_string(), MY_PORT, Vec::new(), &mut hosts, &mut pool);
    assert_eq!(first.effect, Effect::HostSeen { new_host: true });
    assert_eq!(second.effect, Effect::HostSeen { new_host: false });
    assert_eq!(hosts.len(), 1);
}

#[test]
fn pong_and_block_are_acknowledged() {
    let (handled, hosts, _) = handle(Message::Pong { port: 9 }, chain3());
    assert_eq!(handled, Handled { reply: Message::Pong { port: 0 }, effect: Effect::Nothing });
    assert!(hosts.is_empty());
    let (handled, _, _) = handle(Message::Block(block("hx", "x")), chain3());
    assert_eq!(handled, Handled { reply: Message::Pong { port: 0 }, effect: Effect::Nothing });
}

#[test]
fn new_block_offers_the_extended_chain() {
    let (handled, _, _) = handle(Message::NewBlock(block("h3", "three")), chain3());
    assert_eq!(handled.reply, Message::Pong { port: 0 });
    let mut expected = chain3();
    expected.push(block("h3", "three"));
    assert_eq!(handled.effect, Effect::ReplaceChain(expected));
}

#[test]
fn request_block_answers_the_block_or_pong() {
    let (handled, _, _) = handle(Message::RequestBlock { index: 1 }, chain3());
    assert_eq!(handled, Handled { reply: Message::Block(block("h1", "one")), effect: Effect::Nothing });
    let (handled, _, _) = handle(Message::RequestBlock { index: 0 }, chain3());
    assert_eq!(handled.reply, Message::Block(block("h0", "genesis")));
    let (handled, _, _) = handle(Message::RequestBlock { index: 3 }, chain3());
    assert_eq!(handled, Handled { reply: Message::Pong { port: 0 }, effect: Effect::BlockNotFound });
}

#[test]
fn new_transaction_joins_the_pool_once() {
    let mut hosts = KnownHosts::new();
    let mut pool: Mempool<u32> = Mempool::new();
    let a = handle_message::<&str, u32>(Message::NewTransaction(tx("t1", 10)), "x".to_string(), MY_PORT, Vec::new(), &mut hosts, &mut pool);
    let b = handle_message::<&str, u32>(Message::NewTransaction(tx("t2", 20)), "x".to_string(), MY_PORT, Vec::new(), &mut hosts, &mut pool);
    let c = handle_message::<&str, u32>(Message::NewTransaction(tx("t1", 99)), "x".to_string(), MY_PORT, Vec::new(), &mut hosts, &mut pool);
    assert_eq!(a.effect, Effect::TransactionSeen { added: true });
    assert_eq!(b.effect, Effect::TransactionSeen { added: true });
    assert_eq!(c.effect, Effect::TransactionSeen { added: false });
    assert_eq!(c.reply, Message::Pong { port: 0 });
    assert_eq!(pool.transactions(), &vec![tx("t1", 10), tx("t2", 20)]);
    assert!(pool.contains_id(&"t2".to_string()));
    assert!(!pool.contains_id(&"t3".to_string()));
}

#[test]
fn request_chain_answers_the_whole_chain() {
    let (handled, _, _) = handle(Message::RequestChain, chain3());
    assert_eq!(handled.reply, Message::ChainResponse { blocks: chain3(), length: 3 });
    assert_eq!(handled.effect, Effect::Nothing);
    let (handled, _, _) = handle(Message::RequestChain, Vec::new());
    assert_eq!(handled.reply, Message::ChainResponse { blocks: Vec::new(), length: 0 });
}

#[test]
fn chain_response_offers_the_received_chain() {
    let offered = vec![block("a", "a"), block("b", "b")];
    let (handled, _, _) = handle(Message::ChainResponse { blocks: offered.clone(), length: 2 }, chain3());
    assert_eq!(handled, Handled { reply: Message::Pong { port: 0 }, effect: Effect::ReplaceChain(offered) });
}

#[test]
fn request_inventory_answers_the_hashes_in_order() {
    let (handled, _, _) = handle(Message::RequestInventory, chain3());
    assert_eq!(
        handled.reply,
        Message::Inventory { block_hashes: vec!["h0".to_string(), "h1".to_string(), "h2".to_string()] }
    );
    assert_eq!(handled.effect, Effect::Nothing);
}

#[test]
fn inventory_reports_missing_blocks() {
    let announced = vec!["h0".to_string(), "hx".to_string(), "h2".to_string(), "hy".to_string()];
    let (handled, _, _) = handle(Message::Inventory { block_hashes: announced }, chain3());
    assert_eq!(handled.reply, Message::Pong { port: 0 });
    assert_eq!(
        handled.effect,
        Effect::MissingBlocks(vec![(1, "hx".to_string()), (3, "hy".to_string())])
    );
}

#[test]
fn own_inventory_has_nothing_missing() {
    let local = inventory(&chain3());
    assert_eq!(find_missing(&local, &local), Vec::new());
    let (reply, _, _) = handle(Message::RequestInventory, chain3());
    if let Message::Inventory { block_hashes } = reply.reply {
        let (again, _, _) = handle(Message::Inventory { block_hashes }, chain3());
        assert_eq!(again.effect, Effect::MissingBlocks(Vec::new()));
    } else {
        panic!("expected an inventory");
    }
}

#[test]
fn find_missing_against_an_empty_chain_lists_everything() {
    let announced = vec!["a".to_string(), "b".to_string()];
    assert_eq!(find_missing(&Vec::new(), &announced), vec![(0, "a".to_string()), (1, "b".to_string())]);
    assert_eq!(find_missing(&announced, &Vec::new()), Vec::new());
}

#[test]
fn frame_appends_one_newline() {
    assert_eq!(frame(b"{\"RequestChain\":null}".to_vec()), b"{\"RequestChain\":null}\n".to_vec());
    assert_eq!(frame(Vec::new()), b"\n".to_vec());
}

#[test]
fn chain_from_reply_takes_only_chain_responses() {
    let blocks = chain3();
    let reply: Msg = Message::ChainResponse { blocks: blocks.clone(), length: 3 };
    assert_eq!(chain_from_reply(reply), Some(blocks));
    assert_eq!(chain_from_reply::<&str, u32>(Message::Pong { port: 0 }), None);
    assert_eq!(chain_from_reply::<&str, u32>(Message::Inventory { block_hashes: Vec::new() }), None);
}

#[test]
fn parse_command_reads_the_prompt_words() {
    assert_eq!(parse_command(""), Command::Empty);
    assert_eq!(parse_command("quit"), Command::Quit);
    assert_eq!(parse_command("mempool"), Command::ShowMempool);
    assert_eq!(parse_command("chain"), Command::ShowChain);
    assert_eq!(parse_command("inventory"), Command::Inventory);
    assert_eq!(parse_command("ping"), Command::Ping);
    assert_eq!(parse_command("PING"), Command::Unknown);
    assert_eq!(parse_command("pingg"), Command::Unknown);
    assert_eq!(parse_command("whoami"), Command::WhoAmI);
    assert_eq!(parse_command("mine"), Command::Mine);
    assert_eq!(
        parse_command("send 04abcdef 10.5"),
        Command::Send { to: "04abcdef".to_string(), amount: "10.5".to_string() }
    );
    assert_eq!(parse_command("send"), Command::SendUsage);
    assert_eq!(parse_command("send abc"), Command::SendUsage);
    assert_eq!(parse_command("send  abc 10"), Command::SendUsage);
    assert_eq!(parse_command("send abc 10 extra"), Command::SendUsage);
    assert_eq!(parse_command("send abc "), Command::SendUsage);
    assert_eq!(parse_command("sendabc 10"), Command::Unknown);
    assert_eq!(parse_command("mined"), Command::Unknown);
}

#[test]
fn command_request_picks_the_broadcast_message() {
    assert_eq!(command_request::<&str, u32>(&Command::ShowChain, 1248), Some(Message::RequestChain));
    assert_eq!(command_request::<&str, u32>(&Command::Inventory, 1248), Some(Message::RequestInventory));
    assert_eq!(command_request::<&str, u32>(&Command::Ping, 1248), Some(Message::Ping { port: 1248 }));
    assert_eq!(command_request::<&str, u32>(&Command::Quit, 1248), None);
    assert_eq!(command_request::<&str, u32>(&Command::ShowMempool, 1248), None);
    assert_eq!(command_request::<&str, u32>(&Command::Unknown, 1248), None);
    assert_eq!(command_request::<&str, u32>(&Command::Empty, 1248), None);
    assert_eq!(command_request::<&str, u32>(&Command::WhoAmI, 1248), None);
    assert_eq!(command_request::<&str, u32>(&Command::Mine, 1248), None);
    assert_eq!(command_request::<&str, u32>(&Command::SendUsage, 1248), None);
    let send = Command::Send { to: "a".to_string(), amount: "1".to_string() };
    assert_eq!(command_request::<&str, u32>(&send, 1248), None);
}

#[test]
fn mempool_add_keeps_ids_unique() {
    let mut pool: Mempool<u32> = Mempool::new();
    assert!(pool.add(tx("a", 1)));
    assert!(!pool.add(tx("a", 2)));
    assert!(pool.add(tx("b", 3)));
    assert_eq!(pool.len(), 2);
    assert_eq!(pool.transactions(), &vec![tx("a", 1), tx("b", 3)]);
}

#[test]
fn pong_tells_the_nodes_own_port() {
    let mut hosts = KnownHosts::new();
    let mut pool: Mempool<u32> = Mempool::new();
    let handled = handle_message::<&str, u32>(Message::Ping { port: 4000 }, "1.1.1.1".to_string(), 5555, Vec::new(), &mut hosts, &mut pool);
    assert_eq!(handled.reply, Message::Pong { port: 5555 });
}

#[test]
fn submitted_transaction_is_pooled_and_broadcast_once() {
    let mut pool: Mempool<u32> = Mempool::new();
    let first = submit_transaction::<&str, u32>(&mut pool, tx("t1", 7));
    assert_eq!(first, Some(Message::NewTransaction(tx("t1", 7))));
    assert_eq!(pool.transactions(), &vec![tx("t1", 7)]);
    let again = submit_transaction::<&str, u32>(&mut pool, tx("t1", 8));
    assert_eq!(again, None);
    assert_eq!(pool.transactions(), &vec![tx("t1", 7)]);
}

#[test]
fn take_all_empties_the_pool_in_order() {
    let mut pool: Mempool<u32> = Mempool::new();
    pool.add(tx("a", 1));
    pool.add(tx("b", 2));
    assert_eq!(pool.take_all(), vec![tx("a", 1), tx("b", 2)]);
    assert_eq!(pool.len(), 0);
}

#[test]
fn mined_block_is_broadcast_when_accepted() {
    let mut pool: Mempool<u32> = Mempool::new();
    pool.add(tx("a", 1));
    let taken = pool.take_all();
    let announce = finish_mining(&mut pool, taken, block("h9", "mined"), true);
    assert_eq!(announce, Some(Message::NewBlock(block("h9", "mined"))));
    assert_eq!(pool.len(), 0);
}

#[test]
fn stale_block_returns_its_transactions_to_the_pool() {
    let mut pool: Mempool<u32> = Mempool::new();
    pool.add(tx("a", 1));
    pool.add(tx("b", 2));
    let taken = pool.take_all();
    // a peer's block arrived meanwhile, and "b" was sent again
    pool.add(tx("b", 3));
    let announce = finish_mining::<&str, u32>(&mut pool, taken, block("h9", "stale"), false);
    assert_eq!(announce, None);
    assert_eq!(pool.transactions(), &vec![tx("b", 3), tx("a", 1)]);
}

#[test]
fn only_a_ping_is_answered_with_the_nodes_port() {
    let messages: Vec<Msg> = vec![
        Message::Pong { port: 4000 },
        Message::NewBlock(block("h3", "three")),
        Message::RequestBlock { index: 1000 },
        Message::Block(block("hx", "x")),
        Message::NewTransaction(tx("t1", 1)),
        Message::ChainResponse { blocks: Vec::new(), length: 7 },
        Message::Inventory { block_hashes: Vec::new() },
    ];
    for msg in messages {
        let mut hosts = KnownHosts::new();
        let mut pool: Mempool<u32> = Mempool::new();
        let handled = handle_message(msg, "10.0.0.1".to_string(), 5555, chain3(), &mut hosts, &mut pool);
        assert_eq!(handled.reply, Message::Pong { port: 0 });
    }
}
