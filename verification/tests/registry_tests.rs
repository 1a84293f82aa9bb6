//! Tests for the command directory and the packet inspection registry.

use hyperion::command::{CommandComponentModule, CommandRegistry};
use hyperion::registry::{Packet, PacketRegistry, PacketSide, PacketStage};
use hyperion::scratch::{Scratch, ScratchBuffer};

#[test]
fn command_registry_keeps_first_registration_order() {
    let mut r = CommandRegistry::new();
    r.register(b"speed".to_vec(), 1);
    r.register(b"fly".to_vec(), 2);
    r.register(b"xp".to_vec(), 3);
    let names = r.all();
    assert_eq!(names, vec![b"speed".to_vec(), b"fly".to_vec(), b"xp".to_vec()]);
}

#[test]
fn command_registry_replaces_in_place() {
    let mut r = CommandRegistry::new();
    r.register(b"speed".to_vec(), 1);
    r.register(b"fly".to_vec(), 2);
    r.register(b"speed".to_vec(), 9);
    assert_eq!(r.all(), vec![b"speed".to_vec(), b"fly".to_vec()]);
}

#[test]
fn get_permitted_filters_by_verdict() {
    let mut r = CommandRegistry::new();
    r.register(b"speed".to_vec(), 1);
    r.register(b"fly".to_vec(), 2);
    r.register(b"xp".to_vec(), 3);
    let permitted = r.get_permitted(&[true, false, true]);
    assert_eq!(permitted, vec![b"speed".to_vec(), b"xp".to_vec()]);
}

#[test]
fn command_module_starts_empty() {
    let r = CommandComponentModule::module();
    assert!(r.all().is_empty());
}

fn shape(side: PacketSide, stage: PacketStage, id: i32, name: &'static str) -> Packet {
    Packet { side, stage, id, timestamp: None, name, data: None }
}

#[test]
fn registry_finds_registered_shape() {
    let mut r = PacketRegistry::new();
    r.register(shape(PacketSide::Serverbound, PacketStage::Status, 0x01, "QueryPing"));
    r.register_all(vec![
        shape(PacketSide::Clientbound, PacketStage::Status, 0x01, "QueryPong"),
        shape(PacketSide::Serverbound, PacketStage::Login, 0x00, "LoginHello"),
    ]);
    let p = r.get_specific_packet(PacketSide::Serverbound, PacketStage::Login, 0x00, 1234);
    assert_eq!(p.name, "LoginHello");
    assert_eq!(p.id, 0x00);
}

#[test]
fn registry_falls_back_to_unknown() {
    let r = PacketRegistry::default();
    let p = r.get_specific_packet(PacketSide::Serverbound, PacketStage::Play, 0x55, 777);
    assert_eq!(p.name, "Unknown Packet");
    assert_eq!(p.timestamp, Some(777));
    assert_eq!(p.id, 0x55);
}

#[test]
fn process_attaches_body_and_time() {
    let mut r = PacketRegistry::new();
    r.register(shape(PacketSide::Serverbound, PacketStage::Status, 0x00, "QueryRequest"));
    let p = r.process(PacketSide::Serverbound, PacketStage::Status, 0x00, b"body", 42);
    assert_eq!(p.name, "QueryRequest");
    assert_eq!(p.timestamp, Some(42));
    assert_eq!(p.data.as_deref(), Some(b"body".as_slice()));
}

#[test]
fn packet_equality_ignores_name_and_time() {
    let a = Packet {
        side: PacketSide::Serverbound,
        stage: PacketStage::Status,
        id: 1,
        timestamp: Some(10),
        name: "A",
        data: Some(vec![1, 2]),
    };
    let b = Packet {
        side: PacketSide::Serverbound,
        stage: PacketStage::Status,
        id: 1,
        timestamp: Some(99),
        name: "B",
        data: Some(vec![1, 2]),
    };
    assert!(a == b);
    let c = Packet { data: Some(vec![1, 3]), ..b };
    assert!(a != c);
}

#[test]
fn scratch_hands_out_empty_buffers() {
    let mut s = Scratch::new();
    let mut buf = s.obtain();
    assert!(buf.is_empty());
    buf.extend_from_slice(b"work");
    let buf2 = s.obtain();
    assert!(buf2.is_empty());
    let d = Scratch::default();
    let _ = d;
}
