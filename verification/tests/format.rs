use dbpage::cell::read_leaf_table_cell;
use dbpage::error::DecodeError;
use dbpage::header::read_header;
use dbpage::page::read_page;
use dbpage::page::PageType;
use dbpage::view::DatabaseView;

fn image_with_header(page_size_field: [u8; 2], len: usize) -> Vec<u8> {
    let mut v = vec![0u8; len];
    v[..16].copy_from_slice(b"SQLite format 3\0");
    v[16] = page_size_field[0];
    v[17] = page_size_field[1];
    v
}

#[test]
fn test_header_rejects_bad_magic() {
    let bytes = vec![0u8; 100];
    assert_eq!(read_header(&bytes), Err(DecodeError::InvalidFormat));
}

#[test]
fn test_header_page_size_one_means_65536() {
    let bytes = image_with_header([0, 1], 100);
    let h = read_header(&bytes).unwrap();
    assert_eq!(h.page_size, 65536);
}

#[test]
fn test_header_reads_page_size() {
    let bytes = image_with_header([0x10, 0], 100);
    let h = read_header(&bytes).unwrap();
    assert_eq!(h.page_size, 4096);
}

#[test]
fn test_header_rejects_invalid_page_size() {
    let bytes = image_with_header([1, 44], 100);
    assert_eq!(read_header(&bytes), Err(DecodeError::InvalidFormat));
    let bytes = image_with_header([0, 0], 100);
    assert_eq!(read_header(&bytes), Err(DecodeError::InvalidFormat));
}

#[test]
fn test_page_empty_leaf() {
    let mut page = vec![0u8; 512];
    page[0] = 0x0d;
    let p = read_page(&page, false).unwrap();
    assert_eq!(p.page_type, PageType::LeafTable);
    assert_eq!(p.cell_count, 0);
    assert_eq!(p.cell_pointers, Vec::<u16>::new());
}

#[test]
fn test_page_unsupported_type() {
    let mut page = vec![0u8; 512];
    page[0] = 0x07;
    assert_eq!(read_page(&page, false).map(|_| ()), Err(DecodeError::UnsupportedPageType));
}

#[test]
fn test_page_pointer_out_of_bounds() {
    let mut page = vec![0u8; 512];
    page[0] = 0x0d;
    page[4] = 1; // cell_count = 1
    page[8] = 0x02; // pointer = 600, past the page end
    page[9] = 0x58;
    assert_eq!(read_page(&page, false).map(|_| ()), Err(DecodeError::CorruptPage));
}

#[test]
fn test_page_pointer_below_header() {
    let mut page = vec![0u8; 512];
    page[0] = 0x0d;
    page[4] = 1; // cell_count = 1
    page[9] = 4; // pointer = 4, inside the page header
    assert_eq!(read_page(&page, false).map(|_| ()), Err(DecodeError::CorruptPage));
}

#[test]
fn test_page_pointer_array_overruns() {
    let mut page = vec![0u8; 512];
    page[0] = 0x0d;
    page[3] = 0xff; // cell_count = 65535: the array cannot fit
    page[4] = 0xff;
    assert_eq!(read_page(&page, false).map(|_| ()), Err(DecodeError::CorruptPage));
}

#[test]
fn test_page_content_area_zero_means_65536() {
    let mut page = vec![0u8; 512];
    page[0] = 0x0d;
    let p = read_page(&page, false).unwrap();
    assert_eq!(p.content_area_start, 65536);
}

#[test]
fn test_page_interior_header_is_longer() {
    let mut page = vec![0u8; 512];
    page[0] = 0x05;
    page[4] = 1; // cell_count = 1; pointers start at offset 12
    page[12] = 0x01; // pointer = 300
    page[13] = 0x2c;
    let p = read_page(&page, false).unwrap();
    assert_eq!(p.page_type, PageType::InteriorTable);
    assert_eq!(p.cell_pointers, vec![300]);
}

#[test]
fn test_cell_local_payload() {
    let mut page = vec![0u8; 512];
    page[100] = 0x0a; // payload_size = 10
    page[101] = 0x01; // row_id = 1
    for i in 0..10 {
        page[102 + i] = (i + 1) as u8;
    }
    let c = read_leaf_table_cell(&page, 512, 100).unwrap();
    assert_eq!(c.payload_size, 10);
    assert_eq!(c.row_id, 1);
    assert_eq!(c.local_payload, vec![1, 2, 3, 4, 5, 6, 7, 8, 9, 10]);
    assert_eq!(c.overflow_page, None);
}

#[test]
fn test_cell_overflow_trigger() {
    // payload_size = 500 > max_local = 512 - 35 = 477, so the payload
    // spills: 477 bytes stay local and a 4-byte page number follows.
    let mut page = vec![0u8; 512];
    page[10] = 0x83; // payload_size = 500
    page[11] = 0x74;
    page[12] = 0x01; // row_id = 1
    for i in 0..477 {
        page[13 + i] = 0xab;
    }
    page[493] = 7; // overflow page number = 7
    let c = read_leaf_table_cell(&page, 512, 10).unwrap();
    assert_eq!(c.payload_size, 500);
    assert_eq!(c.row_id, 1);
    assert_eq!(c.local_payload.len(), 477);
    assert!(c.local_payload.len() < c.payload_size as usize);
    assert!(c.overflow_page.is_some());
    assert_eq!(c.overflow_page, Some(7));
}

#[test]
fn test_cell_corrupt_truncated_varint() {
    let mut page = vec![0u8; 512];
    page[511] = 0x8f;
    assert_eq!(read_leaf_table_cell(&page, 512, 511).map(|_| ()), Err(DecodeError::CorruptCell));
}

#[test]
fn test_cell_corrupt_payload_past_end() {
    let mut page = vec![0u8; 512];
    page[505] = 0x0a; // payload_size = 10 runs past the page end
    page[506] = 0x01;
    assert_eq!(read_leaf_table_cell(&page, 512, 505).map(|_| ()), Err(DecodeError::CorruptCell));
}

#[test]
fn test_open_truncated_header() {
    let data = vec![0u8; 50];
    assert_eq!(
        DatabaseView::open(data).map(|_| ()),
        Err(DecodeError::Truncated)
    );
}

#[test]
fn test_open_truncated_page() {
    let data = image_with_header([0x10, 0], 200);
    assert_eq!(
        DatabaseView::open(data).map(|_| ()),
        Err(DecodeError::Truncated)
    );
}

#[test]
fn test_open_bad_magic() {
    let data = vec![0u8; 512];
    assert_eq!(
        DatabaseView::open(data).map(|_| ()),
        Err(DecodeError::InvalidFormat)
    );
}

#[test]
fn test_open_unsupported_page_type() {
    let mut data = image_with_header([2, 0], 512);
    data[100] = 0x01;
    assert_eq!(
        DatabaseView::open(data).map(|_| ()),
        Err(DecodeError::UnsupportedPageType)
    );
}

#[test]
fn test_open_corrupt_pointer() {
    let mut data = image_with_header([2, 0], 512);
    data[100] = 0x0d;
    data[104] = 1; // cell_count = 1
    data[108] = 0x02; // pointer = 600, past the page end
    data[109] = 0x58;
    assert_eq!(
        DatabaseView::open(data).map(|_| ()),
        Err(DecodeError::CorruptPage)
    );
}

#[test]
fn test_view_empty_leaf_page() {
    let mut data = image_with_header([2, 0], 512);
    data[100] = 0x0d;
    let v = DatabaseView::open(data).unwrap();
    assert_eq!(v.header.page_size, 512);
    assert_eq!(v.page1.page_type, PageType::LeafTable);
    let cells = v.schema_page_cells().unwrap();
    assert_eq!(cells.len(), 0);
}

#[test]
fn test_view_one_cell_end_to_end() {
    let mut data = image_with_header([0x10, 0], 4096);
    data[100] = 0x0d;
    data[104] = 1; // cell_count = 1
    data[109] = 200; // cell pointer = 200
    data[200] = 0x0a; // payload_size = 10
    data[201] = 0x01; // row_id = 1
    for i in 0..10 {
        data[202 + i] = (10 * (i + 1)) as u8;
    }
    let v = DatabaseView::open(data).unwrap();
    assert_eq!(v.header.page_size, 4096);
    let cells = v.schema_page_cells().unwrap();
    assert_eq!(cells.len(), 1);
    assert_eq!(cells[0].payload_size, 10);
    assert_eq!(cells[0].row_id, 1);
    assert_eq!(
        cells[0].local_payload,
        vec![10, 20, 30, 40, 50, 60, 70, 80, 90, 100]
    );
    assert_eq!(cells[0].overflow_page, None);
}

#[test]
fn test_view_cell_at() {
    let mut data = image_with_header([0x10, 0], 4096);
    data[100] = 0x0d;
    data[104] = 1; // cell_count = 1
    data[109] = 200; // cell pointer = 200
    data[200] = 0x0a; // payload_size = 10
    data[201] = 0x02; // row_id = 2
    for i in 0..10 {
        data[202 + i] = i as u8;
    }
    let v = DatabaseView::open(data).unwrap();
    let c = v.cell_at(0).unwrap();
    assert_eq!(c.payload_size, 10);
    assert_eq!(c.row_id, 2);
    assert_eq!(c.local_payload, vec![0, 1, 2, 3, 4, 5, 6, 7, 8, 9]);
    assert_eq!(c.overflow_page, None);
}

#[test]
fn test_view_root_is_interior() {
    let mut data = image_with_header([2, 0], 512);
    data[100] = 0x05;
    let v = DatabaseView::open(data).unwrap();
    assert_eq!(v.schema_page_cells().map(|_| ()), Err(DecodeError::RootIsInterior));
}

#[test]
fn test_view_leaf_index_not_implemented() {
    let mut data = image_with_header([2, 0], 512);
    data[100] = 0x0a;
    let v = DatabaseView::open(data).unwrap();
    assert_eq!(v.schema_page_cells().map(|_| ()), Err(DecodeError::NotImplemented));
}

#[test]
fn test_view_corrupt_cell() {
    let mut data = image_with_header([2, 0], 512);
    data[100] = 0x0d;
    data[104] = 1; // cell_count = 1
    data[108] = 0x01; // cell pointer = 511
    data[109] = 0xff;
    data[511] = 0x8f; // a varint with nothing after it
    let v = DatabaseView::open(data).unwrap();
    assert_eq!(v.schema_page_cells().map(|_| ()), Err(DecodeError::CorruptCell));
}
