use sim2h::error::Sim2hError;
use sim2h::switchboard::Sim2h;
use sim2h::validation::{
    check_entry_type, poll_validation, validation_outcome, CallbackResult, EntryType,
    ValidationError, ValidationPoll,
};
use sim2h::wire_message::WireMessage;

fn s(x: &str) -> String {
    x.to_string()
}

#[test]
fn known_app_entry_types_can_be_validated() {
    assert_eq!(check_entry_type(&EntryType::App(s("post")), Some(&s("blog"))), Ok(()));
    assert_eq!(
        check_entry_type(&EntryType::App(s("post")), None),
        Err(ValidationError::UnknownAppEntryType(s("post")))
    );
}

#[test]
fn some_system_entry_types_can_be_validated() {
    for t in [
        EntryType::LinkAdd,
        EntryType::LinkRemove,
        EntryType::Deletion,
        EntryType::CapTokenGrant,
        EntryType::AgentId,
    ] {
        assert_eq!(check_entry_type(&t, None), Ok(()));
    }
    for t in [
        EntryType::Dna,
        EntryType::LinkList,
        EntryType::ChainHeader,
        EntryType::ChainMigrate,
        EntryType::CapTokenClaim,
    ] {
        assert_eq!(check_entry_type(&t, None), Err(ValidationError::SystemEntryType));
        assert_eq!(check_entry_type(&t, Some(&s("zome"))), Err(ValidationError::SystemEntryType));
    }
}

#[test]
fn outcome_of_a_callback() {
    assert_eq!(validation_outcome(Ok(CallbackResult::Pass)), Ok(()));
    assert_eq!(
        validation_outcome(Ok(CallbackResult::Fail(s("bad")))),
        Err(ValidationError::Failed(s("bad")))
    );
    assert_eq!(
        validation_outcome(Ok(CallbackResult::NotImplemented(s("why")))),
        Err(ValidationError::NotImplemented(s("why")))
    );
    assert_eq!(validation_outcome(Err(s("broken"))), Err(ValidationError::Failed(s("broken"))));
}

#[test]
fn a_validation_is_pending_until_a_result_is_recorded() {
    assert_eq!(poll_validation(None, &s("addr")), ValidationPoll::Pending);
    assert_eq!(poll_validation(Some(&Ok(())), &s("addr")), ValidationPoll::Ready(Ok(s("addr"))));
    assert_eq!(
        poll_validation(Some(&Err(s("no"))), &s("addr")),
        ValidationPoll::Ready(Err(ValidationError::Failed(s("no"))))
    );
}

#[test]
fn verify_payload_needs_a_valid_signature_and_a_message() {
    assert_eq!(
        Sim2h::verify_payload(s("A1"), true, Some(WireMessage::Ping)),
        Ok((s("A1"), WireMessage::Ping))
    );
    assert_eq!(
        Sim2h::verify_payload(s("A1"), false, Some(WireMessage::Ping)),
        Err(Sim2hError::VerifyFailed)
    );
    assert_eq!(Sim2h::verify_payload(s("A1"), true, None), Err(Sim2hError::VerifyFailed));
}
