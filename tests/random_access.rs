use page_blob_random_access::page_blob_random_access::{
    AccessError, PageBlobRandomAccess, Request, Step, BLOB_PAGE_SIZE,
};

/// An in-memory page blob that counts the calls made to it.
struct MemoryBlob {
    bytes: Vec<u8>,
    property_queries: usize,
    page_fetches: usize,
    saves: Vec<(usize, usize, Vec<u8>)>,
}

impl MemoryBlob {
    fn new(bytes: Vec<u8>) -> Self {
        MemoryBlob { bytes, property_queries: 0, page_fetches: 0, saves: Vec::new() }
    }

    fn calls(&self) -> usize {
        self.property_queries + self.page_fetches + self.saves.len()
    }
}

fn pattern(len: usize) -> Vec<u8> {
    (0..len).map(|i| (i % 251) as u8).collect()
}

fn serve(a: &mut PageBlobRandomAccess<MemoryBlob>, request: Request) {
    match request {
        Request::GetBlobProperties => {
            a.page_blob.property_queries += 1;
            let n = a.page_blob.bytes.len();
            a.blob_size_received(n);
        }
        Request::GetPage { page_no } => {
            a.page_blob.page_fetches += 1;
            let start = page_no * BLOB_PAGE_SIZE;
            let data = a.page_blob.bytes[start..start + BLOB_PAGE_SIZE].to_vec();
            a.add_fetched_page(page_no, data).unwrap();
        }
        Request::SavePages { page_no, max_pages_to_write, data } => {
            let start = page_no * BLOB_PAGE_SIZE;
            a.page_blob.bytes[start..start + data.len()].copy_from_slice(&data);
            a.page_blob.saves.push((page_no, max_pages_to_write, data));
        }
        Request::CreateIfNotExists { pages } => {
            a.page_blob.bytes.resize(pages * BLOB_PAGE_SIZE, 0);
        }
    }
}

fn blob_size(a: &mut PageBlobRandomAccess<MemoryBlob>) -> usize {
    loop {
        match a.get_blob_size() {
            Step::Done(n) => return n,
            Step::Need(request) => serve(a, request),
        }
    }
}

fn read(
    a: &mut PageBlobRandomAccess<MemoryBlob>,
    start_pos: usize,
    copy_to: &mut Vec<u8>,
) -> Result<(), AccessError> {
    loop {
        match a.read(start_pos, copy_to)? {
            Step::Done(()) => return Ok(()),
            Step::Need(request) => serve(a, request),
        }
    }
}

fn write(
    a: &mut PageBlobRandomAccess<MemoryBlob>,
    start_pos: usize,
    max_pages_to_write: usize,
    payload: &Vec<u8>,
) -> Result<(), AccessError> {
    loop {
        match a.write(start_pos, max_pages_to_write, payload)? {
            Step::Done(()) => return Ok(()),
            Step::Need(request) => {
                let is_save = matches!(request, Request::SavePages { .. });
                serve(a, request);
                if is_save {
                    return Ok(());
                }
            }
        }
    }
}

fn adapter(bytes: Vec<u8>) -> PageBlobRandomAccess<MemoryBlob> {
    PageBlobRandomAccess::new(MemoryBlob::new(bytes))
}

#[test]
fn write_then_read_first_page() {
    let mut a = adapter(vec![0; 2048]);
    write(&mut a, 0, 1, &vec![0xAA; 10]).unwrap();
    let mut buf = vec![0u8; 10];
    read(&mut a, 0, &mut buf).unwrap();
    assert_eq!(buf, vec![0xAA; 10]);
}

#[test]
fn write_to_second_page_keeps_first() {
    let mut a = adapter(vec![0; 2048]);
    write(&mut a, 0, 1, &vec![0xAA; 10]).unwrap();
    write(&mut a, 512, 1, &vec![0x55; 20]).unwrap();
    let mut first = vec![0u8; 10];
    read(&mut a, 0, &mut first).unwrap();
    assert_eq!(first, vec![0xAA; 10]);
    let mut second = vec![0u8; 20];
    read(&mut a, 512, &mut second).unwrap();
    assert_eq!(second, vec![0x55; 20]);
    assert_eq!(&a.page_blob.bytes[0..10], &vec![0xAA; 10][..]);
    assert_eq!(&a.page_blob.bytes[10..512], &vec![0u8; 502][..]);
    assert_eq!(&a.page_blob.bytes[512..532], &vec![0x55; 20][..]);
}

#[test]
fn read_past_last_page_fails() {
    let mut a = adapter(vec![0; 2048]);
    let mut buf = vec![7u8; 16];
    assert_eq!(read(&mut a, 2040, &mut buf), Err(AccessError::OutOfRange));
    assert_eq!(buf, vec![7u8; 16]);
    assert_eq!(a.page_blob.page_fetches, 0);
}

#[test]
fn out_of_range_read_makes_no_transport_call() {
    let mut a = adapter(vec![0; 2048]);
    assert_eq!(blob_size(&mut a), 2048);
    let calls = a.page_blob.calls();
    let mut buf = vec![0u8; 2];
    assert_eq!(a.read(2047, &mut buf), Err(AccessError::OutOfRange));
    assert_eq!(a.read(usize::MAX, &mut buf), Err(AccessError::OutOfRange));
    assert_eq!(a.read(4096, &mut vec![]), Err(AccessError::OutOfRange));
    assert_eq!(a.page_blob.calls(), calls);
}

#[test]
fn read_at_end_of_blob_succeeds() {
    let mut a = adapter(pattern(2048));
    let mut buf = vec![0u8; 8];
    read(&mut a, 2040, &mut buf).unwrap();
    assert_eq!(buf, pattern(2048)[2040..2048].to_vec());
}

#[test]
fn read_after_write_at_offset() {
    let mut a = adapter(pattern(2048));
    let payload: Vec<u8> = (100u8..120).collect();
    write(&mut a, 700, 1, &payload).unwrap();
    let mut buf = vec![0u8; 20];
    read(&mut a, 700, &mut buf).unwrap();
    assert_eq!(buf, payload);
    let mut around = vec![0u8; 4];
    read(&mut a, 696, &mut around).unwrap();
    assert_eq!(around, pattern(2048)[696..700].to_vec());
}

#[test]
fn partial_write_saves_whole_page() {
    let mut a = adapter(pattern(2048));
    write(&mut a, 512 + 10, 3, &vec![1, 2, 3]).unwrap();
    assert_eq!(a.page_blob.page_fetches, 1);
    assert_eq!(a.page_blob.saves.len(), 1);
    let (page_no, max_pages, data) = &a.page_blob.saves[0];
    assert_eq!(*page_no, 1);
    assert_eq!(*max_pages, 3);
    let mut expected = pattern(2048)[512..1024].to_vec();
    expected[10..13].copy_from_slice(&[1, 2, 3]);
    assert_eq!(data, &expected);
}

#[test]
fn blob_size_is_queried_once() {
    let mut a = adapter(vec![0; 1024]);
    assert_eq!(a.get_blob_size(), Step::Need(Request::GetBlobProperties));
    assert_eq!(blob_size(&mut a), 1024);
    assert_eq!(blob_size(&mut a), 1024);
    let mut buf = vec![0u8; 4];
    read(&mut a, 0, &mut buf).unwrap();
    read(&mut a, 600, &mut buf).unwrap();
    assert_eq!(a.get_blob_size(), Step::Done(1024));
    assert_eq!(a.page_blob.property_queries, 1);
}

#[test]
fn first_blob_size_is_kept() {
    let mut a = adapter(Vec::new());
    assert_eq!(a.blob_size_received(4096), 4096);
    assert_eq!(a.blob_size_received(512), 4096);
    assert_eq!(a.get_blob_size(), Step::Done(4096));
}

#[test]
fn read_across_pages_is_rejected() {
    let mut a = adapter(vec![0; 2048]);
    let mut buf = vec![0u8; 20];
    assert_eq!(read(&mut a, 500, &mut buf), Err(AccessError::SpansPages));
    assert_eq!(a.page_blob.page_fetches, 0);
}

#[test]
fn write_across_pages_is_rejected() {
    let mut a = adapter(vec![0; 2048]);
    assert_eq!(write(&mut a, 1020, 1, &vec![1; 8]), Err(AccessError::SpansPages));
    assert_eq!(a.page_blob.calls(), 0);
}

#[test]
fn write_asks_for_missing_page_first() {
    let mut a = adapter(vec![0; 2048]);
    assert_eq!(a.write(1030, 1, &vec![1]), Ok(Step::Need(Request::GetPage { page_no: 2 })));
    assert_eq!(a.make_sure_page_is_in_cache(2), Step::Need(Request::GetPage { page_no: 2 }));
    a.add_fetched_page(2, vec![0; 512]).unwrap();
    assert_eq!(a.make_sure_page_is_in_cache(2), Step::Done(()));
}

#[test]
fn fetched_page_of_wrong_length_is_rejected() {
    let mut a = adapter(vec![0; 2048]);
    assert_eq!(a.add_fetched_page(0, vec![0; 100]), Err(AccessError::PageSizeMismatch));
    assert_eq!(a.make_sure_page_is_in_cache(0), Step::Need(Request::GetPage { page_no: 0 }));
}

#[test]
fn refetched_page_keeps_cached_writes() {
    let mut a = adapter(vec![0; 2048]);
    write(&mut a, 0, 1, &vec![0xAA; 4]).unwrap();
    a.add_fetched_page(0, vec![0x11; 512]).unwrap();
    let mut buf = vec![0u8; 4];
    read(&mut a, 0, &mut buf).unwrap();
    assert_eq!(buf, vec![0xAA; 4]);
}

#[test]
fn cache_holds_four_pages() {
    let mut a = adapter(pattern(4096));
    let mut buf = vec![0u8; 1];
    for page_no in 0usize..4 {
        read(&mut a, page_no * 512, &mut buf).unwrap();
    }
    assert_eq!(a.page_blob.page_fetches, 4);
    read(&mut a, 3 * 512, &mut buf).unwrap();
    assert_eq!(a.page_blob.page_fetches, 4);
    read(&mut a, 4 * 512, &mut buf).unwrap();
    assert_eq!(a.page_blob.page_fetches, 5);
    read(&mut a, 1 * 512, &mut buf).unwrap();
    assert_eq!(a.page_blob.page_fetches, 5);
    read(&mut a, 0, &mut buf).unwrap();
    assert_eq!(a.page_blob.page_fetches, 6);
    assert_eq!(buf, vec![0]);
}

#[test]
fn create_new_asks_for_creation() {
    let mut a = adapter(Vec::new());
    let request = a.create_new(3);
    assert_eq!(request, Request::CreateIfNotExists { pages: 3 });
    serve(&mut a, request);
    assert_eq!(blob_size(&mut a), 1536);
}
