use std::sync::{Arc, RwLock};
use engine::application::{
    cooldown_elapsed, toggle_pause_menu, BlockBarFocus, CaptureState, IsPaused, LastWorldInteraction,
    ToggleGuiPressed, COOLDOWN_NANOS,
};
use engine::chunk::Block;
use engine::components::{toggle_gamemode, Gamemode, HeldBlock, IsOnGround};
use engine::events::EventBus;
use engine::handle::{AsHandle, Handle, HandleMut};
use engine::interaction::{decide_interaction, WorldInteraction};
use engine::networking::{
    buses_to_forward, keep_alive_due, keep_unsent, ClientRegistry, LastKeepAlive, NetEvent, NetStep, PacketRoute,
};
use engine::world_gen::{block_for_depth, needs_stone_noise};

#[test]
fn capture_state_toggles() {
    let mut c = CaptureState::new(false);
    assert!(!c.is_captured());
    assert!(c.toggle());
    assert!(c.is_captured());
    c.set(false);
    assert!(!c.is_captured());
}

#[test]
fn pause_menu_toggles_on_key() {
    let mut p = IsPaused::new(true);
    assert!(p.is_paused());
    assert_eq!(toggle_pause_menu(&mut p, None), None);
    assert!(p.is_paused());
    assert_eq!(toggle_pause_menu(&mut p, Some(ToggleGuiPressed)), Some(true));
    assert!(!p.is_paused());
    assert_eq!(toggle_pause_menu(&mut p, Some(ToggleGuiPressed)), Some(false));
    assert!(p.is_paused());
    p.set_without_event(false);
    assert!(!p.is_paused());
    assert!(!IsPaused::default().is_paused());
}

#[test]
fn block_bar_starts_unfocused() {
    let f = BlockBarFocus::new(18);
    assert_eq!(f.inventory_size, 18);
    assert!(f.focus.iter().all(|s| s.is_none()));
}

#[test]
fn interaction_cooldown() {
    assert!(!cooldown_elapsed(200_000_000));
    assert!(cooldown_elapsed(COOLDOWN_NANOS));
    let mut l = LastWorldInteraction::default();
    assert!(!l.cooldown_passed());
    l.reset_cooldown();
    assert!(!l.cooldown_passed());
}

#[test]
fn interactions_from_buttons() {
    // just pressed both with a face: replace
    assert_eq!(decide_interaction(true, true, false, false, false, true), WorldInteraction::Replace);
    assert_eq!(decide_interaction(true, true, false, false, false, false), WorldInteraction::Nothing);
    assert_eq!(decide_interaction(false, true, false, false, false, false), WorldInteraction::Break);
    assert_eq!(decide_interaction(true, false, false, false, false, true), WorldInteraction::Place);
    assert_eq!(decide_interaction(true, false, false, false, false, false), WorldInteraction::Nothing);
    // held buttons only count once the cooldown passed
    assert_eq!(decide_interaction(false, false, false, true, false, true), WorldInteraction::Nothing);
    assert_eq!(decide_interaction(false, false, false, true, true, true), WorldInteraction::Break);
    assert_eq!(decide_interaction(true, false, false, true, true, true), WorldInteraction::Replace);
}

#[test]
fn terrain_layers() {
    assert_eq!(block_for_depth(0, 10, 5, false), Some(Block::Grass));
    assert_eq!(block_for_depth(0, 5, 5, false), Some(Block::Grass));
    assert_eq!(block_for_depth(0, 4, 5, false), Some(Block::Dirt));
    assert_eq!(block_for_depth(3, 4, 5, true), Some(Block::Dirt));
    assert_eq!(block_for_depth(4, 4, 5, true), Some(Block::Cobblestone));
    assert_eq!(block_for_depth(9, 4, 5, false), Some(Block::Stone));
    assert_eq!(block_for_depth(-1, 5, 5, false), Some(Block::Debug));
    assert_eq!(block_for_depth(-1, 6, 5, false), None);
    assert!(needs_stone_noise(4) && !needs_stone_noise(3));
}

#[test]
fn connection_rules() {
    let a = (false, 0x7f00_0001u128, 4000u16, 0u32, 0u32);
    let b = (false, 0x7f00_0001u128, 4001u16, 0u32, 0u32);
    let mut clients = ClientRegistry::new();
    // a new address must open with a connection request
    assert_eq!(clients.route_packet(&a, false), PacketRoute::Drop);
    assert_eq!(clients.route_packet(&a, true), PacketRoute::Connect);
    assert_eq!(clients.handle_event(NetEvent::Packet { from: a, connection_request: true }), NetStep::NewClient(a));
    assert!(clients.register(a, 7));
    // once registered, every packet goes to the client's entity
    assert_eq!(clients.route_packet(&a, false), PacketRoute::Deliver(7));
    assert_eq!(clients.route_packet(&a, true), PacketRoute::Deliver(7));
    assert_eq!(clients.entity_of(&a), Some(7));
    assert_eq!(clients.address_of(7), Some(a));
    // neither the address nor the entity can be paired twice
    assert!(!clients.register(a, 8));
    assert!(!clients.register(b, 7));
    assert!(clients.register(b, 8));
    let mut addrs = clients.addresses();
    addrs.sort();
    assert_eq!(addrs, vec![a, b]);
    assert_eq!(clients.clients().len(), 2);
    assert_eq!(clients.handle_event(NetEvent::Connected(b)), NetStep::Ignore);
    assert_eq!(clients.handle_event(NetEvent::TimedOut(b)), NetStep::Ignore);
    // a disconnect removes the client and hands back its entity
    assert_eq!(clients.handle_event(NetEvent::Disconnected(a)), NetStep::Remove(7));
    assert_eq!(clients.handle_event(NetEvent::Disconnected(a)), NetStep::UnknownDisconnect(a));
    assert_eq!(clients.route_packet(&a, false), PacketRoute::Drop);
    assert_eq!(clients.address_of(7), None);
    assert_eq!(clients.disconnect(&b), Some(8));
    assert!(clients.addresses().is_empty());
    assert!(!keep_alive_due(5_000_000_000));
    assert!(keep_alive_due(5_000_000_001));
    let mut k = LastKeepAlive::default();
    assert!(!k.is_due());
    k.reset();
    assert!(!k.is_due());
}

#[test]
fn pending_requests_and_forwarding() {
    assert!(keep_unsent(true, true));
    assert!(!keep_unsent(true, false));
    assert!(!keep_unsent(false, true));
    assert!(!keep_unsent(false, false));
    assert_eq!(buses_to_forward(3, &vec![1, 3, 5, 3]), vec![0, 2]);
    assert_eq!(buses_to_forward(9, &vec![1, 3]), vec![0, 1]);
    assert!(buses_to_forward(1, &vec![]).is_empty());
}

#[test]
fn handles_lend_values() {
    let v = 41u32;
    let h = Handle::new(&v);
    assert_eq!(*h, 41);
    let h2 = v.as_handle();
    assert_eq!(*h2 + 1, 42);
    let shared = HandleMut::new(Arc::new(RwLock::new(vec![1, 2])));
    let other = shared.clone();
    other.shared().write().unwrap().push(3);
    assert_eq!(*shared.shared().read().unwrap(), vec![1, 2, 3]);
    let base = Arc::new(RwLock::new(5u8));
    let h = HandleMut::new(base.clone());
    *h.clone().shared().write().unwrap() = 6;
    assert_eq!(*h.shared().read().unwrap(), 6);
    assert!(Arc::ptr_eq(h.shared(), &base));
    assert_eq!(*base.read().unwrap(), 6);
}

#[test]
fn plain_components() {
    assert_eq!(IsOnGround::default(), IsOnGround(false));
    assert!(!IsPaused::default().is_paused());
    assert!(IsPaused::new(true).is_paused());
    assert_eq!(HeldBlock::default(), HeldBlock(0));
    let bus: EventBus<u8> = EventBus::default();
    assert!(bus.0.is_empty());
}

#[test]
fn gamemode_toggles_on_key() {
    let mut g = Gamemode::Survival;
    assert_eq!(toggle_gamemode(&mut g, false), None);
    assert_eq!(g, Gamemode::Survival);
    assert_eq!(toggle_gamemode(&mut g, true), Some(Gamemode::Spectator));
    assert_eq!(g, Gamemode::Spectator);
    assert_eq!(toggle_gamemode(&mut g, true), Some(Gamemode::Survival));
    assert_eq!(g, Gamemode::Survival);
}
