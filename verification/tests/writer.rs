use xz::stream::Status;
use xz::write::{
    drain_written, finish_step, grown_len, truncated_error_message, write_done, CoderKind,
    FinishStep,
};

#[test]
fn write_answers_once_input_is_taken() {
    assert!(write_done(CoderKind::Encoder, 5, 10, Status::Success));
    assert!(!write_done(CoderKind::Encoder, 0, 10, Status::Success));
    assert!(write_done(CoderKind::Encoder, 0, 0, Status::Success));
    assert!(!write_done(CoderKind::Encoder, 0, 10, Status::StreamEnd));
    assert!(write_done(CoderKind::Decoder, 0, 10, Status::StreamEnd));
}

#[test]
fn finishing_steps() {
    assert_eq!(finish_step(CoderKind::Encoder, 0, Status::MemNeeded), FinishStep::Again);
    assert_eq!(finish_step(CoderKind::Decoder, 0, Status::MemNeeded), FinishStep::Truncated);
    assert_eq!(finish_step(CoderKind::Decoder, 3, Status::MemNeeded), FinishStep::Again);
    assert_eq!(finish_step(CoderKind::Decoder, 3, Status::StreamEnd), FinishStep::Done);
    assert_eq!(finish_step(CoderKind::Encoder, 0, Status::StreamEnd), FinishStep::Done);
    assert_eq!(
        truncated_error_message(),
        "xz compressed stream is truncated or otherwise corrupt"
    );
}

#[test]
fn the_buffer_drains_what_was_written() {
    let mut buf = vec![1u8, 2, 3, 4, 5];
    assert!(drain_written(&mut buf, 2));
    assert_eq!(buf, vec![3, 4, 5]);
    assert!(!drain_written(&mut buf, 0));
    assert_eq!(buf, vec![3, 4, 5]);
    assert!(drain_written(&mut buf, 3));
    assert!(buf.is_empty());
    assert_eq!(grown_len(10, 100, 142), 52);
}
