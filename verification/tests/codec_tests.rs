use lant::chunk::FileChunkSize;
use lant::dir::{DirItem, DirItemType};
use lant::dispatch::{classify_request, DispatchError};
use lant::frame::{
    build_error_message, build_message, deconstruct_message, unwrap_message, FrameError,
    MessageType, MESSAGE_MAGIC,
};
use lant::get_payload::{GetRequestPayload, GetResponseMeta, GetResponsePayload, GetResponsePayloadRef};
use lant::ls_payload::{LsRequestPayload, LsResponsePayload};
use lant::payload::PayloadError;
use lant::put_payload::{
    PutRequestMeta, PutRequestPayload, PutRequestPayloadRef, PutResponsePayload,
};

fn expect_payload_err<T>(r: Result<T, PayloadError>, want: PayloadError) {
    match r {
        Err(e) => assert_eq!(e, want),
        Ok(_) => panic!("expected a payload error"),
    }
}

fn concat(segments: Vec<Vec<u8>>) -> Vec<u8> {
    let mut out = Vec::new();
    for s in segments {
        out.extend_from_slice(&s);
    }
    out
}

#[test]
fn message_type_codes_round_trip() {
    let all = [
        MessageType::LsRequest,
        MessageType::LsResponse,
        MessageType::PutRequest,
        MessageType::PutResponse,
        MessageType::GetRequest,
        MessageType::GetResponse,
        MessageType::Error,
    ];
    for t in all {
        assert_eq!(MessageType::from_u16(t.as_u16()), t);
    }
    assert_eq!(MessageType::from_u16(0b11111111), MessageType::Invalid);
    assert_eq!(MessageType::from_u16(3), MessageType::Invalid);
}

#[test]
fn frame_round_trip_small() {
    let payload = vec![vec![1u8, 2, 3], vec![4u8, 5]];
    let msg = concat(build_message(MessageType::GetRequest, payload));
    let (t, p) = deconstruct_message(&msg).unwrap();
    assert_eq!(t, MessageType::GetRequest);
    assert_eq!(p.unwrap(), vec![1, 2, 3, 4, 5]);
}

#[test]
fn frame_round_trip_empty_payload() {
    let msg = concat(build_message(MessageType::LsRequest, Vec::new()));
    assert_eq!(msg.len(), 11);
    let (t, p) = deconstruct_message(&msg).unwrap();
    assert_eq!(t, MessageType::LsRequest);
    assert!(p.is_none());
}

#[test]
fn frame_round_trip_large_payload() {
    // Several chunk units of payload travel through the frame unchanged.
    let big: Vec<u8> = (0..40_000_000u64).map(|i| (i % 251) as u8).collect();
    let msg = concat(build_message(MessageType::GetResponse, vec![big.clone()]));
    let (t, p) = deconstruct_message(&msg).unwrap();
    assert_eq!(t, MessageType::GetResponse);
    assert_eq!(p.unwrap(), big);
}

#[test]
fn frame_header_layout() {
    let msg = concat(build_message(MessageType::PutRequest, vec![vec![9u8; 7]]));
    assert_eq!(msg[0], MESSAGE_MAGIC);
    assert_eq!(&msg[1..3], &MessageType::PutRequest.as_u16().to_le_bytes());
    assert_eq!(&msg[3..11], &7u64.to_le_bytes());
    assert_eq!(&msg[11..], &[9u8; 7]);
}

#[test]
fn frame_segments_pass_payload_through() {
    // Three header segments, then the payload segments untouched, in order.
    let segments = build_message(MessageType::GetResponse, vec![vec![1u8, 2], vec![3u8]]);
    assert_eq!(segments.len(), 5);
    assert_eq!(segments[0], vec![MESSAGE_MAGIC]);
    assert_eq!(segments[1], MessageType::GetResponse.as_u16().to_le_bytes().to_vec());
    assert_eq!(segments[2], 3u64.to_le_bytes().to_vec());
    assert_eq!(segments[3], vec![1, 2]);
    assert_eq!(segments[4], vec![3]);
}

#[test]
fn payload_segments_keep_raw_data_separate() {
    // Upload request: length-prefixed text in segment 0, raw data alone in
    // segment 1.  Download response: 24 metadata bytes, then the data.
    let meta = PutRequestMeta::new(b"f".to_vec(), b"d".to_vec());
    let text_len = meta.to_text().len();
    let put_segs = PutRequestPayload::new(meta, Some(vec![9u8, 8])).to_payload();
    assert_eq!(put_segs.len(), 2);
    assert_eq!(put_segs[0].len(), 8 + text_len);
    assert_eq!(&put_segs[0][..8], &(text_len as u64).to_le_bytes());
    assert_eq!(put_segs[1], vec![9, 8]);
    let meta = GetResponseMeta::new(FileChunkSize::new(1, 2), 0);
    let get_segs = GetResponsePayload::new(meta, vec![5u8, 6, 7]).to_payload();
    assert_eq!(get_segs.len(), 2);
    assert_eq!(get_segs[0].len(), 24);
    assert_eq!(get_segs[1], vec![5, 6, 7]);
}

#[test]
fn frame_errors_by_kind() {
    assert_eq!(deconstruct_message(&vec![1, 2, 3]), Err(FrameError::HeaderTooShort));
    let mut msg = concat(build_message(MessageType::LsRequest, vec![vec![1u8]]));
    msg[0] ^= 0xff;
    assert_eq!(deconstruct_message(&msg), Err(FrameError::BadMagic));
    let mut msg2 = concat(build_message(MessageType::LsRequest, vec![vec![1u8]]));
    msg2[1] = 3;
    assert_eq!(deconstruct_message(&msg2), Err(FrameError::InvalidType));
    let mut msg3 = concat(build_message(MessageType::LsRequest, vec![vec![1u8]]));
    msg3.push(0);
    assert_eq!(deconstruct_message(&msg3), Err(FrameError::SizeMismatch));
}

#[test]
fn unwrap_message_matches_expectation() {
    let msg = concat(build_message(MessageType::PutResponse, vec![vec![8u8, 9]]));
    assert_eq!(unwrap_message(&msg, MessageType::PutResponse).unwrap(), Some(vec![8, 9]));
    assert_eq!(unwrap_message(&msg, MessageType::GetResponse).unwrap(), None);
    let err = concat(build_error_message(b"boom".to_vec()));
    assert_eq!(unwrap_message(&err, MessageType::PutResponse).unwrap(), None);
    let (t, p) = deconstruct_message(&err).unwrap();
    assert_eq!(t, MessageType::Error);
    assert_eq!(p.unwrap(), b"boom".to_vec());
}

#[test]
fn classify_request_routes_requests_only() {
    let put = concat(build_message(MessageType::PutRequest, vec![vec![1u8]]));
    let (t, p) = classify_request(&put).unwrap();
    assert_eq!(t, MessageType::PutRequest);
    assert_eq!(p, vec![1]);
    let resp = concat(build_message(MessageType::PutResponse, vec![vec![1u8]]));
    assert_eq!(classify_request(&resp), Err(DispatchError::UnsupportedRequest));
    let empty = concat(build_message(MessageType::GetRequest, Vec::new()));
    assert_eq!(classify_request(&empty), Err(DispatchError::EmptyBody));
    assert_eq!(
        classify_request(&vec![0u8; 3]),
        Err(DispatchError::Frame(FrameError::HeaderTooShort))
    );
}

#[test]
fn put_meta_text_round_trip() {
    let meta = PutRequestMeta::new(b"report.pdf".to_vec(), b"docs/in".to_vec());
    let text = meta.to_text();
    assert_eq!(
        text,
        b"{\"curr_trans_trunk_index\":0,\"file_name\":\"report.pdf\",\"is_done\":false,\"remote_dir\":\"docs/in\"}".to_vec()
    );
    let back = PutRequestMeta::from_text(&text).unwrap();
    assert_eq!(back.file_name, b"report.pdf".to_vec());
    assert_eq!(back.remote_dir, b"docs/in".to_vec());
    assert_eq!(back.curr_trans_trunk_index, 0);
    assert!(!back.is_done);
}

#[test]
fn put_meta_text_escapes_and_big_index() {
    let mut meta = PutRequestMeta::new(b"a\"b\\c".to_vec(), b"d".to_vec());
    meta.curr_trans_trunk_index = u64::MAX;
    meta.is_done = true;
    let text = meta.to_text();
    let back = PutRequestMeta::from_text(&text).unwrap();
    assert_eq!(back.file_name, b"a\"b\\c".to_vec());
    assert_eq!(back.curr_trans_trunk_index, u64::MAX);
    assert!(back.is_done);
}

#[test]
fn put_meta_rejects_non_canonical() {
    // A leading zero is not the canonical spelling of any number.
    let text = b"{\"curr_trans_trunk_index\":01,\"file_name\":\"a\",\"is_done\":false,\"remote_dir\":\"b\"}".to_vec();
    expect_payload_err(PutRequestMeta::from_text(&text), PayloadError::Malformed);
    let trailing = b"{\"curr_trans_trunk_index\":1,\"file_name\":\"a\",\"is_done\":false,\"remote_dir\":\"b\"} ".to_vec();
    expect_payload_err(PutRequestMeta::from_text(&trailing), PayloadError::Malformed);
}

#[test]
fn put_request_payload_round_trip() {
    let meta = PutRequestMeta::new(b"f".to_vec(), b"d".to_vec());
    let payload = PutRequestPayload::new(meta, Some(vec![7u8, 8, 9]));
    let bytes = concat(payload.to_payload());
    let back = PutRequestPayloadRef::from_payload(&bytes).unwrap();
    assert_eq!(back.meta.file_name, b"f".to_vec());
    assert_eq!(back.data, vec![7, 8, 9]);
}

#[test]
fn put_request_payload_no_data() {
    let meta = PutRequestMeta::new(b"f".to_vec(), b"d".to_vec());
    let payload = PutRequestPayload::new(meta, None);
    let bytes = concat(payload.to_payload());
    let back = PutRequestPayloadRef::from_payload(&bytes).unwrap();
    assert!(back.data.is_empty());
}

#[test]
fn put_request_payload_errors() {
    expect_payload_err(
        PutRequestPayloadRef::from_payload(&vec![1, 2, 3]),
        PayloadError::TooShort,
    );
    let mut bytes = 100u64.to_le_bytes().to_vec();
    bytes.extend_from_slice(b"short");
    expect_payload_err(
        PutRequestPayloadRef::from_payload(&bytes),
        PayloadError::MetaOverrun,
    );
    let mut junk = 4u64.to_le_bytes().to_vec();
    junk.extend_from_slice(b"junkdata");
    expect_payload_err(PutRequestPayloadRef::from_payload(&junk), PayloadError::Malformed);
}

#[test]
fn put_response_text_round_trip() {
    let p = PutResponsePayload::new(FileChunkSize::new(2, 3_222_784));
    let text = p.to_text();
    assert_eq!(
        text,
        b"{\"is_done\":false,\"remote_file_chunk_size\":[2,3222784]}".to_vec()
    );
    assert_eq!(PutResponsePayload::from_text(&text).unwrap(), p);
    let f = PutResponsePayload::finish();
    let ftext = f.to_text();
    assert_eq!(ftext, b"{\"is_done\":true,\"remote_file_chunk_size\":[0,0]}".to_vec());
    assert_eq!(PutResponsePayload::from_text(&ftext).unwrap(), f);
}

#[test]
fn get_request_text_round_trip() {
    let g = GetRequestPayload::new(b"sub/movie.mkv".to_vec(), FileChunkSize::new(1, 42));
    let text = g.to_text();
    assert_eq!(
        text,
        b"{\"local_file_chunk_size\":[1,42],\"remote_file_path\":\"sub/movie.mkv\"}".to_vec()
    );
    let back = GetRequestPayload::from_text(&text).unwrap();
    assert_eq!(back.remote_file_path, b"sub/movie.mkv".to_vec());
    assert_eq!(back.local_file_chunk_size, FileChunkSize::new(1, 42));
}

#[test]
fn get_response_payload_round_trip() {
    let meta = GetResponseMeta::new(FileChunkSize::new(2, 5), 1);
    let payload = GetResponsePayload::new(meta, vec![1u8, 2, 3, 4]);
    let bytes = concat(payload.to_payload());
    assert_eq!(bytes.len(), 28);
    assert_eq!(&bytes[0..8], &2u64.to_le_bytes());
    assert_eq!(&bytes[8..16], &5u64.to_le_bytes());
    assert_eq!(&bytes[16..24], &1u64.to_le_bytes());
    let back = GetResponsePayloadRef::from_payload(&bytes).unwrap();
    assert_eq!(back.meta, meta);
    assert_eq!(back.data, vec![1, 2, 3, 4]);
}

#[test]
fn get_response_payload_too_short() {
    expect_payload_err(
        GetResponsePayloadRef::from_payload(&vec![0u8; 23]),
        PayloadError::TooShort,
    );
    let ok = GetResponsePayloadRef::from_payload(&vec![0u8; 24]).unwrap();
    assert!(ok.data.is_empty());
}

#[test]
fn ls_request_text_round_trip() {
    let g = LsRequestPayload::new(b"music/live".to_vec());
    let text = g.to_text();
    assert_eq!(text, b"{\"path_on_remote\":\"music/live\"}".to_vec());
    let back = LsRequestPayload::from_text(&text).unwrap();
    assert_eq!(back.path_on_remote, b"music/live".to_vec());
}

#[test]
fn ls_response_text_round_trip_empty() {
    let g = LsResponsePayload::new(b"top".to_vec(), Vec::new());
    let text = g.to_text();
    assert_eq!(text, b"{\"dir\":\"top\",\"items\":[]}".to_vec());
    let back = LsResponsePayload::from_text(&text).unwrap();
    assert_eq!(back.dir, b"top".to_vec());
    assert!(back.items.is_empty());
}

#[test]
fn ls_response_text_round_trip_items() {
    let items = vec![
        DirItem::new(b"notes.txt".to_vec(), DirItemType::File),
        DirItem::new(b"img".to_vec(), DirItemType::Dir),
    ];
    let g = LsResponsePayload::new(b"top".to_vec(), items);
    let text = g.to_text();
    assert_eq!(
        text,
        b"{\"dir\":\"top\",\"items\":[[\"notes.txt\",\"File\"],[\"img\",\"Dir\"]]}".to_vec()
    );
    let back = LsResponsePayload::from_text(&text).unwrap();
    assert_eq!(back.items.len(), 2);
    assert_eq!(back.items[0].name(), b"notes.txt".to_vec());
    assert!(back.items[0].is_file());
    assert_eq!(back.items[1].name(), b"img".to_vec());
    assert!(!back.items[1].is_file());
}

#[test]
fn ls_response_rejects_malformed_items() {
    let text = b"{\"dir\":\"top\",\"items\":[[\"x\",\"Link\"]]}".to_vec();
    expect_payload_err(LsResponsePayload::from_text(&text), PayloadError::Malformed);
}
