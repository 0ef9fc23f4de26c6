use raster_chain_inference::model_import::externals::{pack_i32_bytes, page_of_i32s, paged_i32s};
use raster_chain_inference::pages::{
    pack_i32s, pack_i64s, page_at, page_of, unpack_i32s, unpack_i32s_at, unpack_i64s, Bytes,
    BytesPage,
};

#[test]
fn lanes_survive_packing() {
    let lanes = vec![0, 1, -1, i32::MAX, i32::MIN, 0x1234_5678];
    let page = pack_i32s(&lanes);
    assert_eq!(page.bytes.len(), 24);
    assert_eq!(&page.bytes[20..], &[0x78, 0x56, 0x34, 0x12]);
    assert_eq!(unpack_i32s(&page).unwrap(), lanes);
    let wide = vec![0i64, -1, i64::MAX, i64::MIN, 0x0102_0304_0506_0708];
    let page = pack_i64s(&wide);
    assert_eq!(&page.bytes[32..], &[8, 7, 6, 5, 4, 3, 2, 1]);
    assert_eq!(unpack_i64s(&page).unwrap(), wide);
    assert_eq!(pack_i32_bytes(&[-2]), vec![0xfe, 0xff, 0xff, 0xff]);
    assert_eq!(page_of_i32s(&[5]).bytes, vec![5, 0, 0, 0]);
}

#[test]
fn a_partial_lane_is_refused() {
    let page = BytesPage { index: 0, offset: 0, bytes: vec![1, 2, 3] };
    assert_eq!(unpack_i32s(&page).unwrap_err(), "page length 3 is not i32-aligned");
    assert_eq!(unpack_i64s(&page).unwrap_err(), "page length 3 is not i64-aligned");
}

#[test]
fn paging_keeps_every_byte() {
    let data: Vec<u8> = (0..10).collect();
    let region = Bytes::paged(&data, 4);
    assert_eq!(region.byte_len, 10);
    assert_eq!(region.pages.len(), 3);
    assert_eq!(region.pages[1].offset, 4);
    assert_eq!(region.pages[2].bytes, vec![8, 9]);
    let whole: Vec<u8> = region.pages.iter().flat_map(|p| p.bytes.clone()).collect();
    assert_eq!(whole, data);
    assert_eq!(Bytes::paged(&[], 4).pages.len(), 0);
    assert_eq!(page_of(9, 4), 2);
    assert_eq!(page_of(9, 0), 0);
    assert_eq!(page_at(&region, 1).bytes, vec![4, 5, 6, 7]);
    assert_eq!(paged_i32s(&[1, 2]).page_size, 196_608);
}

#[test]
fn lanes_are_read_at_an_offset() {
    let page = BytesPage { index: 1, offset: 8, bytes: pack_i32_bytes(&[7, 8, 9]) };
    assert_eq!(unpack_i32s_at(&page, 12, 2).unwrap(), vec![8, 9]);
    assert!(unpack_i32s_at(&page, 4, 1).is_err());
    assert!(unpack_i32s_at(&page, 16, 2).is_err());
}
