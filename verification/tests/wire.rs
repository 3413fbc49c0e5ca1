use bootstrapper::WorkerStatus;
use bootstrapper::envmap::EnvMap;
use bootstrapper::recipe::SourceContents;
use bootstrapper::wire::{
    check_status, expected_status, advance, SessionPhase, write_source, write_dep, write_overlay,
    write_envs, write_archive, finish_sources, parse_u16, parse_u64, parse_name_frame,
    parse_blob64, read_envs, read_archive, read_source_payload, push_be64,
};

#[test]
fn status_bytes_follow_declaration_order() {
    assert_eq!(WorkerStatus::ReadyForWork.to_byte(), 0);
    assert_eq!(WorkerStatus::BuildComplete.to_byte(), 11);
    assert_eq!(WorkerStatus::from_byte(5), Some(WorkerStatus::ReadyForDep));
    assert_eq!(WorkerStatus::from_byte(12), None);
}

#[test]
fn lockstep_rejects_every_other_byte() {
    // A worker that omits or reorders a status byte fails at exactly
    // the offending step.
    let want = expected_status(SessionPhase::Sources).to_byte();
    for b in 0..=255u8 {
        let r = check_status(SessionPhase::Sources, b);
        if b == want {
            assert!(r.is_ok());
        } else {
            assert!(r.is_err());
        }
    }
}

#[test]
fn session_phases_advance_in_protocol_order() {
    let p = advance(SessionPhase::AwaitWork, false);
    assert_eq!(p, SessionPhase::Sources);
    assert_eq!(advance(p, true), SessionPhase::SourcePayload);
    assert_eq!(advance(SessionPhase::SourcePayload, false), SessionPhase::Sources);
    assert_eq!(advance(SessionPhase::Sources, false), SessionPhase::Deps);
    assert_eq!(advance(SessionPhase::Overlays, false), SessionPhase::Envs);
    assert_eq!(advance(SessionPhase::Envs, false), SessionPhase::Complete);
}

#[test]
fn integer_codecs_round_trip() {
    let mut buf: Vec<u8> = Vec::new();
    push_be64(&mut buf, 0x0102030405060708);
    assert_eq!(buf, vec![1, 2, 3, 4, 5, 6, 7, 8]);
    let (v, end) = parse_u64(&buf, 0).unwrap();
    assert_eq!(v, 0x0102030405060708);
    assert_eq!(end, 8);
}

#[test]
fn source_frames_are_exact() {
    let sc = SourceContents { url: "u".to_owned(), sha: "s".to_owned() };
    let data = vec![9u8, 8, 7];
    let (nf, pf) = write_source("x", &sc, &data).unwrap();
    assert_eq!(nf, vec![0u8, 1, b'x']);
    // u32 length of "1:u1:s", the text, u64 data length, the data.
    let mut want = vec![0u8, 0, 0, 6];
    want.extend_from_slice(b"1:u1:s");
    want.extend_from_slice(&[0, 0, 0, 0, 0, 0, 0, 3]);
    want.extend_from_slice(&[9, 8, 7]);
    assert_eq!(pf, want);

    let (sc2, data2, _end) = read_source_payload(&pf, 0).unwrap();
    assert_eq!(sc2.url, "u");
    assert_eq!(sc2.sha, "s");
    assert_eq!(data2, data);
}

#[test]
fn dep_frames_round_trip() {
    let data = vec![1u8, 2];
    let (nf, pf) = write_dep("dep:1", &data).unwrap();
    let (name, end) = parse_name_frame(&nf, 0).unwrap();
    assert_eq!(name.unwrap(), b"dep:1");
    assert_eq!(end, nf.len());
    let (blob, bend) = parse_blob64(&pf, 0).unwrap();
    assert_eq!(blob, data);
    assert_eq!(bend, pf.len());
}

#[test]
fn overlay_frames_round_trip() {
    let (nf, pf) = write_overlay(&b"etc/conf".to_vec(), &vec![42u8]).unwrap();
    let (name, _) = parse_name_frame(&nf, 0).unwrap();
    assert_eq!(name.unwrap(), b"etc/conf");
    let (blob, _) = parse_blob64(&pf, 0).unwrap();
    assert_eq!(blob, vec![42u8]);
}

#[test]
fn stream_end_marker_is_zero_length_name() {
    let f = finish_sources();
    assert_eq!(f, vec![0u8, 0]);
    let (name, end) = parse_name_frame(&f, 0).unwrap();
    assert!(name.is_none());
    assert_eq!(end, 2);
}

#[test]
fn env_block_round_trips() {
    let mut env = EnvMap::new();
    env.insert("PATH".to_owned(), "/bin".to_owned());
    env.insert("FOO".to_owned(), "bar".to_owned());
    let f = write_envs(&env).unwrap();
    let (env2, end) = read_envs(&f, 0).unwrap();
    assert_eq!(end, f.len());
    assert_eq!(env2.get("PATH").unwrap(), "/bin");
    assert_eq!(env2.get("FOO").unwrap(), "bar");
    assert_eq!(env2.len(), 2);
}

#[test]
fn truncated_frames_are_detected() {
    assert!(parse_u16(&vec![1u8], 0).is_none());
    assert!(parse_name_frame(&vec![0u8, 5, b'a'], 0).is_none());
    assert!(parse_blob64(&vec![0u8; 7], 0).is_none());
}

#[test]
fn completion_frame_round_trips() {
    let hash = "a".repeat(64);
    let archive = vec![5u8, 6, 7, 8];
    let f = write_archive(&hash, &archive).unwrap();
    assert_eq!(f[0], WorkerStatus::BuildComplete.to_byte());
    let rest: Vec<u8> = f[1..].to_vec();
    let (h, data, end) = read_archive(&rest, 0).unwrap();
    assert_eq!(h, hash.as_bytes());
    assert_eq!(data, archive);
    assert_eq!(end, rest.len());
}

#[test]
fn archive_hash_must_be_sixty_four_bytes() {
    assert!(write_archive("short", &vec![]).is_err());
}

#[test]
fn recipe_frame_round_trips() {
    let r = bootstrapper::recipe::NamedRecipeVersion {
        name: "echo".to_owned(),
        version: "1.0".to_owned(),
        source: None,
        shell: None,
        deps: None,
        mkdirs: Some(vec!["work".to_owned()]),
        build: bootstrapper::recipe::RecipeBuildSteps::Single {
            single: vec![bootstrapper::recipe::RecipeBuildStep::Simple(
                "touch /out".to_owned(),
            )],
        },
        artefacts: vec!["out".to_owned()],
    };
    let f = bootstrapper::wire::write_recipe(&r);
    let (r2, end) = bootstrapper::wire::read_recipe(&f, 0).unwrap();
    assert_eq!(end, f.len());
    assert_eq!(
        bootstrapper::recipe_text::emit_recipe(&r2),
        bootstrapper::recipe_text::emit_recipe(&r)
    );
}

#[test]
fn oversized_names_are_refused() {
    let long = "n".repeat(0x10000);
    assert_eq!(
        write_dep(&long, &vec![]).unwrap_err(),
        bootstrapper::wire::WireError::TooLong
    );
}

#[test]
fn protocol_errors_name_both_bytes() {
    match check_status(SessionPhase::Envs, 3).unwrap_err() {
        bootstrapper::wire::ProtocolError::UnexpectedStatus { got, want } => {
            assert_eq!(got, 3);
            assert_eq!(want, WorkerStatus::ReadyForEnvs.to_byte());
        },
    }
}
