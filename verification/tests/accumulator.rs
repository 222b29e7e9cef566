use xxhash64::accumulator::{XxCore, CHUNK_SIZE};
use xxhash64::buffer::Buffer;
use xxhash64::XxHash64;

fn pattern(len: usize) -> Vec<u8> {
    (0..len).map(|i| ((i * 7 + 3) & 0xff) as u8).collect()
}

fn lanes(core: &XxCore) -> [u64; 4] {
    [core.v1, core.v2, core.v3, core.v4]
}

#[test]
fn chunk_is_32_bytes() {
    assert_eq!(CHUNK_SIZE, 32);
}

#[test]
fn lanes_from_seed_zero() {
    let core = XxCore::with_seed(0);
    assert_eq!(
        lanes(&core),
        [0x60EA27EEADC0B5D6, 0xC2B2AE3D27D4EB4F, 0, 0x61C8864E7A143579]
    );
}

#[test]
fn lanes_from_seed_one() {
    let core = XxCore::with_seed(1);
    assert_eq!(
        lanes(&core),
        [0x60EA27EEADC0B5D7, 0xC2B2AE3D27D4EB50, 1, 0x61C8864E7A14357A]
    );
}

#[test]
fn lanes_wrap_around() {
    let core = XxCore::with_seed(u64::MAX);
    assert_eq!(core.v1, 0x60EA27EEADC0B5D5);
    assert_eq!(core.v2, 0xC2B2AE3D27D4EB4E);
    assert_eq!(core.v3, u64::MAX);
    assert_eq!(core.v4, 0x61C8864E7A143578);
}

#[test]
fn one_chunk_updates_every_lane() {
    let data = pattern(64);
    let mut core = XxCore::with_seed(0);
    core.ingest_chunks(&data[..32]);
    assert_eq!(
        lanes(&core),
        [0x573CA1E36C3848E4, 0x94EC8E72B2BBD06F, 0xCDC7C50242C5C110, 0xA9AF2B430F351322]
    );
    core.ingest_chunks(&data[32..]);
    assert_eq!(
        lanes(&core),
        [0x8DDEF0F29F2794A2, 0x8C3376FB1D825FD0, 0x1BD6F35784486AC2, 0xDFCF9FBF58C94323]
    );
}

#[test]
fn two_chunks_at_once_are_two_chunks_in_turn() {
    let data = pattern(64);
    let mut at_once = XxCore::with_seed(1);
    at_once.ingest_chunks(&data);
    assert_eq!(
        lanes(&at_once),
        [0xDD6608BA6F275C10, 0x9EB074066D82273E, 0x6B5E0B1F54483230, 0x911F3DD5A2DD400A]
    );
    let mut in_turn = XxCore::with_seed(1);
    in_turn.ingest_chunks(&data[..32]);
    in_turn.ingest_chunks(&data[32..]);
    assert_eq!(at_once, in_turn);
}

#[test]
fn no_chunk_changes_nothing() {
    let mut core = XxCore::with_seed(9);
    core.ingest_chunks(&[]);
    assert_eq!(core, XxCore::with_seed(9));
}

#[test]
fn lanes_are_merged() {
    assert_eq!(XxCore::with_seed(0).finish(), 0x5AE1634AE2A70C06);
    assert_eq!(XxCore::with_seed(1).finish(), 0xA7A8C769433FBD60);
    let data = pattern(64);
    let mut core = XxCore::with_seed(0);
    core.ingest_chunks(&data);
    assert_eq!(core.finish(), 0x7F56A1D9BE6CDC2F);
    let mut core = XxCore::with_seed(1);
    core.ingest_chunks(&data);
    assert_eq!(core.finish(), 0xEA6904EA0E125AED);
}

#[test]
fn staging_regroups_bytes_into_chunks() {
    let data = pattern(64);
    let mut direct = XxCore::with_seed(0);
    direct.ingest_chunks(&data);

    let mut core = XxCore::with_seed(0);
    let mut buffer = Buffer::default();
    XxHash64::buffer_bytes(&mut core, &mut buffer, &data[..5]);
    assert_eq!(core, XxCore::with_seed(0));
    assert_eq!(buffer.data(), &data[..5]);
    XxHash64::buffer_bytes(&mut core, &mut buffer, &data[5..40]);
    assert_eq!(buffer.data(), &data[32..40]);
    XxHash64::buffer_bytes(&mut core, &mut buffer, &data[40..]);
    assert!(buffer.is_empty());
    assert_eq!(core, direct);
}

#[test]
fn staging_many_chunks_in_one_call() {
    let data = pattern(100);
    let mut direct = XxCore::with_seed(4);
    direct.ingest_chunks(&data[..96]);

    let mut core = XxCore::with_seed(4);
    let mut buffer = Buffer::default();
    XxHash64::buffer_bytes(&mut core, &mut buffer, &data);
    assert_eq!(core, direct);
    assert_eq!(buffer.data(), &data[96..]);
}
