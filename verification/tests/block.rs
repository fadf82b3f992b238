use patchwork::block::{
    fill_dummy_block_ids, pack_block_ids, report, BlockStateOperations, ReportMessage,
};
use patchwork::codec::{encode, read_frame};
use patchwork::messenger::SendPacketMessage;
use patchwork::packet::Packet;

#[test]
fn empty_list_is_filled_to_a_section() {
    let mut ids: Vec<i32> = Vec::new();
    fill_dummy_block_ids(&mut ids);
    assert_eq!(ids.len(), 4096);
    assert_eq!(&ids[..16], &[180; 16]);
    assert_eq!(
        &ids[16..32],
        &[180, 97, 103, 97, 103, 97, 103, 97, 103, 97, 103, 97, 103, 97, 103, 180]
    );
    assert_eq!(
        &ids[32..48],
        &[180, 103, 97, 103, 97, 103, 97, 103, 97, 103, 97, 103, 97, 103, 97, 180]
    );
    assert_eq!(&ids[240..256], &[180; 16]);
}

#[test]
fn every_layer_has_the_same_pattern() {
    let mut ids: Vec<i32> = Vec::new();
    fill_dummy_block_ids(&mut ids);
    for layer in 1..16 {
        assert_eq!(&ids[layer * 256..(layer + 1) * 256], &ids[..256]);
    }
    let border: usize = ids.iter().filter(|id| **id == 180).count();
    let light: usize = ids.iter().filter(|id| **id == 97).count();
    let dark: usize = ids.iter().filter(|id| **id == 103).count();
    assert_eq!(border, 16 * 60);
    assert_eq!(light, 16 * 98);
    assert_eq!(dark, 16 * 98);
}

#[test]
fn ids_that_are_there_stay() {
    let mut ids: Vec<i32> = vec![1, 2, 3];
    fill_dummy_block_ids(&mut ids);
    assert_eq!(ids.len(), 4096);
    assert_eq!(&ids[..5], &[1, 2, 3, 180, 180]);
    assert_eq!(ids[17], 97);
}

#[test]
fn full_list_stays_as_it_is() {
    let mut ids: Vec<i32> = vec![5; 4096];
    fill_dummy_block_ids(&mut ids);
    assert_eq!(ids, vec![5; 4096]);
    let mut longer: Vec<i32> = vec![6; 5000];
    fill_dummy_block_ids(&mut longer);
    assert_eq!(longer, vec![6; 5000]);
}

#[test]
fn ids_are_packed_from_the_lowest_bit() {
    assert_eq!(pack_block_ids(&vec![1, 2, 3], 4, 1), vec![0x321]);
    assert_eq!(pack_block_ids(&vec![1, 2, 3], 8, 1), vec![0x03_0201]);
    assert_eq!(pack_block_ids(&vec![180, 97], 14, 1), vec![180 | 97 << 14]);
}

#[test]
fn id_may_lie_across_two_words() {
    assert_eq!(pack_block_ids(&vec![0x3fff; 5], 14, 2), vec![-1, 0x3f]);
    assert_eq!(pack_block_ids(&vec![0, 0, 0, 0, 0x2a55], 14, 2), vec![0x55 << 56, 0x2a]);
}

#[test]
fn high_bits_of_an_id_are_dropped() {
    assert_eq!(pack_block_ids(&vec![-1, 0x7fff_4001], 14, 1), vec![0x3fff | 0x0001 << 14]);
}

#[test]
fn words_past_the_ids_are_zero() {
    assert_eq!(pack_block_ids(&vec![7], 14, 3), vec![7, 0, 0]);
    assert_eq!(pack_block_ids(&Vec::new(), 14, 2), vec![0, 0]);
}

#[test]
fn ids_past_the_words_are_left_out() {
    assert_eq!(pack_block_ids(&vec![1; 10], 32, 2), vec![0x1_0000_0001, 0x1_0000_0001]);
    assert_eq!(pack_block_ids(&vec![1; 10], 32, 0), Vec::<i64>::new());
}

#[test]
fn section_of_block_ids_takes_896_words() {
    let mut ids: Vec<i32> = Vec::new();
    fill_dummy_block_ids(&mut ids);
    let data = pack_block_ids(&ids, 14, 896);
    assert_eq!(data.len(), 896);
    for (n, id) in ids.iter().enumerate() {
        let bit: usize = n * 14;
        let low: u64 = (data[bit / 64] as u64) >> (bit % 64);
        let high: u64 = if bit % 64 > 50 { (data[bit / 64 + 1] as u64) << (64 - bit % 64) } else { 0 };
        assert_eq!(((low | high) & 0x3fff) as i32, *id);
    }
}

#[test]
fn report_sends_the_pillar_to_the_connection_that_asked() {
    let BlockStateOperations::Report(msg) =
        BlockStateOperations::Report(ReportMessage { conn_id: 12 });
    let SendPacketMessage { conn_id, packet } = report(msg);
    assert_eq!(conn_id, 12);
    let Packet::ChunkData(chunk) = packet.clone() else {
        panic!("the report is a chunk");
    };
    assert_eq!((chunk.chunk_x, chunk.chunk_z), (0, 0));
    assert!(chunk.full_chunk);
    assert_eq!(chunk.primary_bit_mask, 1);
    assert_eq!(chunk.size, 12291);
    assert_eq!(chunk.data.bits_per_block, 14);
    let mut ids: Vec<i32> = Vec::new();
    fill_dummy_block_ids(&mut ids);
    assert_eq!(chunk.data.data_array, pack_block_ids(&ids, 14, 896));
    assert_eq!(chunk.data.block_light, vec![0xff; 2048]);
    assert_eq!(chunk.data.sky_light, vec![0xff; 2048]);
    assert_eq!(chunk.biomes, vec![127; 256]);
    assert_eq!(chunk.number_of_block_entities, 0);
    let frame = encode(&packet).expect("the pillar has a frame");
    assert_eq!(read_frame(3, &frame), Ok((packet, frame.len())));
}

#[test]
fn pillar_has_the_size_that_it_names() {
    let Packet::ChunkData(chunk) = report(ReportMessage { conn_id: 1 }).packet else {
        panic!("the report is a chunk");
    };
    let mut section: Vec<u8> = Vec::new();
    assert!(chunk.data.write(&mut section));
    assert_eq!(section.len() + 4 * chunk.biomes.len(), 12291);
}
