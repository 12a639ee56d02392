use lant::chunk::{FileChunkSize, FILE_CHUNK_UNIT_SIZE};
use lant::command::{GetCommandServer, LsCommandServer, PutCommandServer};
use lant::dispatch::{MsgErr, ServerContext};
use lant::filemodel::apply_write_at;
use lant::get_payload::GetResponseMeta;
use lant::paths::{check_path_in_root, path_within, resolve_under_root, PathError};
use lant::put_payload::PutResponsePayload;
use lant::transfer::{
    get_client_step, get_client_write_offset, get_server_plan, put_process_response,
    put_server_plan, put_server_response, PutServerAction, Stage, TransferError,
};

const UNIT: usize = FILE_CHUNK_UNIT_SIZE;

fn expect_transfer_err<T>(r: Result<T, TransferError>, want: TransferError) {
    match r {
        Err(e) => assert_eq!(e, want),
        Ok(_) => panic!("expected a transfer error"),
    }
}

#[test]
fn write_at_is_idempotent() {
    let mut once: Vec<u8> = vec![9, 9, 9];
    let data = vec![1u8, 2, 3, 4];
    apply_write_at(&mut once, 5, &data);
    let mut twice = once.clone();
    apply_write_at(&mut twice, 5, &data);
    assert_eq!(once, twice);
    assert_eq!(once, vec![9, 9, 9, 0, 0, 1, 2, 3, 4]);
}

#[test]
fn write_at_overwrites_in_place() {
    let mut file: Vec<u8> = vec![1, 2, 3, 4, 5];
    apply_write_at(&mut file, 1, &vec![8u8, 9]);
    assert_eq!(file, vec![1, 8, 9, 4, 5]);
}

#[test]
fn put_resume_matching_sizes_finishes_immediately() {
    // The destination already holds the same breakdown: one final request
    // with is_done and no data.
    let local_len = 2 * UNIT;
    let local = FileChunkSize::from_length(local_len);
    let response = PutResponsePayload::new(FileChunkSize::from_length(local_len));
    let step = put_process_response(local_len, &local, &response).unwrap();
    match step {
        Stage::Processing((is_done, idx, data)) => {
            assert!(is_done);
            assert_eq!(idx, 0);
            assert!(data.is_none());
        }
        Stage::Finish => panic!("expected a final request, not loop exit"),
    }
}

#[test]
fn put_resume_partial_chunk_retargets_last_index() {
    // The destination holds one full chunk and a partial second chunk: the
    // next write re-targets index 1, not index 2.
    let local_len = 3 * UNIT;
    let local = FileChunkSize::from_length(local_len);
    let response = PutResponsePayload::new(FileChunkSize::from_length(UNIT + 100));
    let step = put_process_response(local_len, &local, &response).unwrap();
    match step {
        Stage::Processing((is_done, idx, data)) => {
            assert!(!is_done);
            assert_eq!(idx, 1);
            assert_eq!(data, Some((UNIT as u64, UNIT)));
        }
        Stage::Finish => panic!("expected another data request"),
    }
}

#[test]
fn put_done_response_ends_loop() {
    let local = FileChunkSize::from_length(5);
    let mut done = PutResponsePayload::new(FileChunkSize::new(0, 0));
    done.is_done = true;
    assert!(matches!(
        put_process_response(5, &local, &done).unwrap(),
        Stage::Finish
    ));
}

#[test]
fn put_rejects_invalid_report() {
    let local = FileChunkSize::from_length(5);
    let bad = PutResponsePayload::new(FileChunkSize::new(0, 7));
    expect_transfer_err(
        put_process_response(5, &local, &bad),
        TransferError::InvalidChunkSize,
    );
    let ahead = PutResponsePayload::new(FileChunkSize::new(4, 0));
    expect_transfer_err(
        put_process_response(5, &local, &ahead),
        TransferError::OffsetBeyondEnd,
    );
    let huge = PutResponsePayload::new(FileChunkSize::new(u64::MAX, 0));
    expect_transfer_err(
        put_process_response(5, &local, &huge),
        TransferError::OffsetOverflow,
    );
}

#[test]
fn put_scenario_twenty_million_bytes() {
    // A 20,000,000-byte upload to an empty server: 16,777,216 bytes at
    // offset 0, then 3,222,784 bytes at offset 16,777,216, then is_done.
    let local: Vec<u8> = (0..20_000_000u64).map(|i| (i % 239) as u8).collect();
    let local_cs = FileChunkSize::from_length(local.len());
    let mut remote: Vec<u8> = Vec::new();
    let mut requests: Vec<(bool, u64, Option<(u64, usize)>)> = Vec::new();
    // Probing request: index 0, no data.
    let mut pending: (bool, u64, Option<(u64, usize)>) = (false, 0, None);
    loop {
        requests.push(pending.clone());
        let (is_done, idx, read) = pending.clone();
        // Server side.
        let action = put_server_plan(idx, is_done).unwrap();
        let response = match action {
            PutServerAction::RespondDone => {
                let mut p = PutResponsePayload::new(FileChunkSize::new(0, 0));
                p.is_done = true;
                p
            }
            PutServerAction::Store { offset } => {
                if let Some((req_off, req_len)) = read {
                    assert_eq!(offset, req_off);
                    let data = local[req_off as usize..req_off as usize + req_len].to_vec();
                    apply_write_at(&mut remote, offset as usize, &data);
                }
                put_server_response(remote.len())
            }
        };
        // Client side.
        match put_process_response(local.len(), &local_cs, &response).unwrap() {
            Stage::Processing((is_done, idx, read)) => {
                pending = (is_done, idx, read);
            }
            Stage::Finish => break,
        }
    }
    assert_eq!(remote, local);
    // The probing request, two data requests, then the final is_done one.
    assert_eq!(requests.len(), 4);
    assert_eq!(requests[0], (false, 0, None));
    assert_eq!(requests[1].1, 0);
    assert_eq!(requests[1].2, Some((0, 16_777_216)));
    assert_eq!(requests[2].1, 1);
    assert_eq!(requests[2].2, Some((16_777_216, 3_222_784)));
    assert_eq!(requests[3], (true, 0, None));
}

#[test]
fn get_scenario_resume_counts_rounds() {
    // Resuming a download with one full chunk present takes exactly
    // total_chunks - 1 further round trips, and the final round names the
    // last chunk index.
    let remote: Vec<u8> = (0..(2 * UNIT + 12345) as u64).map(|i| (i % 241) as u8).collect();
    let mut local: Vec<u8> = remote[..UNIT].to_vec();
    let mut rounds = 0u64;
    let mut last_meta: Option<GetResponseMeta> = None;
    loop {
        let local_cs = FileChunkSize::from_length(local.len());
        let plan = get_server_plan(remote.len(), &local_cs).unwrap();
        let data =
            remote[plan.offset as usize..plan.offset as usize + plan.read_len].to_vec();
        let offset = get_client_write_offset(&plan.meta).unwrap();
        assert_eq!(offset, plan.offset);
        apply_write_at(&mut local, offset as usize, &data);
        rounds += 1;
        last_meta = Some(plan.meta);
        match get_client_step(&plan.meta, local.len()) {
            Stage::Finish => break,
            Stage::Processing(next) => {
                assert_eq!(next, FileChunkSize::from_length(local.len()));
            }
        }
    }
    assert_eq!(local, remote);
    let remote_cs = FileChunkSize::from_length(remote.len());
    assert_eq!(rounds, remote_cs.total_chunks() - 1);
    let meta = last_meta.unwrap();
    assert_eq!(meta.remote_file_chunk_size.total_chunks(), meta.curr_trans_trunk_index + 1);
}

#[test]
fn get_refuses_completed_transfer() {
    let len = UNIT + 7;
    let cs = FileChunkSize::from_length(len);
    expect_transfer_err(get_server_plan(len, &cs), TransferError::AlreadyComplete);
}

#[test]
fn get_partial_last_chunk_is_refetched() {
    // The client reports a partial second chunk: the server re-serves index
    // 1 from its start, not index 2.
    let remote_len = 2 * UNIT;
    let local = FileChunkSize::from_length(UNIT + 3);
    let plan = get_server_plan(remote_len, &local).unwrap();
    assert_eq!(plan.meta.curr_trans_trunk_index, 1);
    assert_eq!(plan.offset, UNIT as u64);
    assert_eq!(plan.read_len, UNIT);
    assert_eq!(
        plan.meta.remote_file_chunk_size,
        FileChunkSize::from_length(remote_len)
    );
}

#[test]
fn path_checks_respect_component_boundaries() {
    let root = b"/srv/store".to_vec();
    assert!(path_within(&root, &b"/srv/store".to_vec()));
    assert!(path_within(&root, &b"/srv/store/a/b".to_vec()));
    assert!(!path_within(&root, &b"/srv/storeroom".to_vec()));
    assert!(!path_within(&root, &b"/etc/passwd".to_vec()));
    assert!(!path_within(&root, &b"/srv".to_vec()));
}

#[test]
fn get_path_outside_root_is_refused() {
    let root = b"/srv/store".to_vec();
    assert_eq!(
        check_path_in_root(&root, &b"/etc/passwd".to_vec()),
        Err(PathError::OutsideRoot)
    );
    assert_eq!(check_path_in_root(&root, &b"/srv/store/f".to_vec()), Ok(()));
}

#[test]
fn put_path_outside_root_falls_back() {
    let root = b"/srv/store".to_vec();
    assert_eq!(
        resolve_under_root(&root, b"/srv/elsewhere".to_vec()),
        b"/srv/store".to_vec()
    );
    assert_eq!(
        resolve_under_root(&root, b"/srv/store/in".to_vec()),
        b"/srv/store/in".to_vec()
    );
}

#[test]
fn server_context_keeps_root() {
    let ctx = ServerContext::new(b"/data".to_vec());
    assert_eq!(ctx.root_path, b"/data".to_vec());
}

#[test]
fn msg_err_carries_text() {
    let e = MsgErr::new(b"oops".to_vec());
    assert_eq!(e.0, b"oops".to_vec());
    let r: Result<u32, MsgErr> = MsgErr::res(b"bad".to_vec());
    assert_eq!(r.unwrap_err().0, b"bad".to_vec());
}

#[test]
fn command_servers_keep_root() {
    assert_eq!(LsCommandServer::new(b"/r".to_vec()).0, b"/r".to_vec());
    assert_eq!(PutCommandServer::new(b"/r".to_vec()).0, b"/r".to_vec());
    assert_eq!(GetCommandServer::new(b"/r".to_vec()).0, b"/r".to_vec());
}

#[test]
fn stage_default_is_finish() {
    let s: Stage<u32> = Default::default();
    assert!(matches!(s, Stage::Finish));
}
