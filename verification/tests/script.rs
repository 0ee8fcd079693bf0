use lnpbp::error::{Error, TypeName};
use lnpbp::script::{
    AssignmentAbi, AssignmentAction, NodeAction, Procedure, StandardProcedure, TransitionAbi,
    TransitionAction,
};

#[test]
fn test_basics() {
    // Test Actions and Standard procedures
    assert_eq!(AssignmentAction::Validate.to_discriminant(), 0);
    assert_eq!(
        AssignmentAction::from_discriminant(0),
        Some(AssignmentAction::Validate)
    );
    for d in 1..=255u8 {
        assert_eq!(AssignmentAction::from_discriminant(d), None);
    }
    assert_eq!(TransitionAction::GenerateBlank.to_discriminant(), 0);
    assert_eq!(
        TransitionAction::from_discriminant(0),
        Some(TransitionAction::GenerateBlank)
    );
    for d in 1..=255u8 {
        assert_eq!(TransitionAction::from_discriminant(d), None);
    }
    assert_eq!(vec![0x01], StandardProcedure::ConfidentialAmount.strict_serialize());
    assert_eq!(vec![0x02], StandardProcedure::IssueControl.strict_serialize());
    assert_eq!(vec![0x03], StandardProcedure::Prunning.strict_serialize());

    // Test Procedures
    assert_eq!(
        vec![0xFF, 0x01],
        Procedure::Standard(StandardProcedure::ConfidentialAmount).strict_serialize()
    );
    assert_eq!(
        vec![0xFF, 0x02],
        Procedure::Standard(StandardProcedure::IssueControl).strict_serialize()
    );
    assert_eq!(
        vec![0xFF, 0x03],
        Procedure::Standard(StandardProcedure::Prunning).strict_serialize()
    );
    assert_eq!(
        vec![0x00, 0x58, 0x00, 0x00, 0x00],
        Procedure::Simplicity { offset: 88 }.strict_serialize()
    );

    // Test Transition and Assignment ABI
    let mut trans_abi = TransitionAbi::new();
    trans_abi.insert(
        TransitionAction::GenerateBlank,
        Procedure::Standard(StandardProcedure::ConfidentialAmount),
    );
    assert_eq!(vec![0x01, 0x00, 0x00, 0xff, 0x01], trans_abi.strict_serialize());

    let mut assignment_abi = AssignmentAbi::new();
    assignment_abi.insert(
        AssignmentAction::Validate,
        Procedure::Simplicity { offset: 45 },
    );
    assert_eq!(
        vec![0x01, 0x00, 0x00, 0x00, 0x2d, 0x00, 0x00, 0x00],
        assignment_abi.strict_serialize()
    );
}

#[test]
fn procedure_round_trips() {
    let values = vec![
        Procedure::Standard(StandardProcedure::ConfidentialAmount),
        Procedure::Standard(StandardProcedure::IssueControl),
        Procedure::Standard(StandardProcedure::Prunning),
        Procedure::Simplicity { offset: 0 },
        Procedure::Simplicity { offset: 88 },
        Procedure::Simplicity { offset: u32::MAX },
    ];
    for v in values {
        let bytes = v.strict_serialize();
        assert_eq!(Procedure::strict_decode(&bytes, 0), Ok((v, bytes.len())));
    }
    let bytes = StandardProcedure::Prunning.strict_serialize();
    assert_eq!(
        StandardProcedure::strict_decode(&bytes, 0),
        Ok((StandardProcedure::Prunning, 1))
    );
}

#[test]
fn unknown_procedure_discriminant_rejected() {
    assert_eq!(
        Procedure::strict_decode(&vec![0x02], 0),
        Err(Error::EnumValueNotKnown(TypeName::Procedure, 2))
    );
    assert_eq!(TypeName::Procedure.name(), "script::Procedure");
}

#[test]
fn unknown_standard_procedure_rejected() {
    assert_eq!(
        Procedure::strict_decode(&vec![0xff, 0x09], 0),
        Err(Error::EnumValueNotKnown(TypeName::StandardProcedure, 9))
    );
    assert_eq!(
        StandardProcedure::strict_decode(&vec![0x00], 0),
        Err(Error::EnumValueNotKnown(TypeName::StandardProcedure, 0))
    );
}

#[test]
fn short_procedure_streams_rejected() {
    assert_eq!(Procedure::strict_decode(&vec![], 0), Err(Error::DataIncomplete));
    assert_eq!(Procedure::strict_decode(&vec![0xff], 0), Err(Error::DataIncomplete));
    assert_eq!(
        Procedure::strict_decode(&vec![0x00, 0x58, 0x00], 0),
        Err(Error::DataIncomplete)
    );
}

#[test]
fn map_encoding_ignores_insertion_history() {
    // Building the same logical map along two different insertion
    // histories must yield identical canonical bytes.
    let mut first = TransitionAbi::new();
    first.insert(
        TransitionAction::GenerateBlank,
        Procedure::Simplicity { offset: 7 },
    );
    first.insert(
        TransitionAction::GenerateBlank,
        Procedure::Standard(StandardProcedure::Prunning),
    );
    let mut second = TransitionAbi::new();
    second.insert(
        TransitionAction::GenerateBlank,
        Procedure::Standard(StandardProcedure::Prunning),
    );
    assert_eq!(first.strict_serialize(), second.strict_serialize());
}

#[test]
fn duplicate_map_key_rejected() {
    // count = 2, and both entries carry the key byte 0x00
    let stream = vec![0x02, 0x00, 0x00, 0xff, 0x01, 0x00, 0xff, 0x01];
    assert!(matches!(
        TransitionAbi::strict_decode(&stream, 0),
        Err(Error::DuplicateKey)
    ));
}

#[test]
fn unknown_map_key_rejected() {
    let stream = vec![0x01, 0x00, 0x07, 0xff, 0x01];
    assert_eq!(
        TransitionAbi::strict_decode(&stream, 0),
        Err(Error::EnumValueNotKnown(TypeName::TransitionAction, 7))
    );
    assert_eq!(TypeName::TransitionAction.name(), "script::TransitionAction");
}

#[test]
fn abi_round_trip() {
    let mut abi = AssignmentAbi::new();
    abi.insert(
        AssignmentAction::Validate,
        Procedure::Simplicity { offset: 45 },
    );
    let bytes = abi.strict_serialize();
    let (decoded, consumed) = AssignmentAbi::strict_decode(&bytes, 0).unwrap();
    assert_eq!(consumed, bytes.len());
    assert_eq!(
        decoded.get(&AssignmentAction::Validate),
        Some(Procedure::Simplicity { offset: 45 })
    );
    assert_eq!(decoded.strict_serialize(), bytes);

    let empty = TransitionAbi::new();
    let bytes = empty.strict_serialize();
    assert_eq!(bytes, vec![0x00, 0x00]);
    let (decoded, consumed) = TransitionAbi::strict_decode(&bytes, 0).unwrap();
    assert_eq!(consumed, 2);
    assert_eq!(decoded.get(&TransitionAction::GenerateBlank), None);
}

#[test]
fn short_map_streams_rejected() {
    assert_eq!(TransitionAbi::strict_decode(&vec![0x01], 0), Err(Error::DataIncomplete));
    assert_eq!(
        TransitionAbi::strict_decode(&vec![0x01, 0x00], 0),
        Err(Error::DataIncomplete)
    );
    assert_eq!(
        TransitionAbi::strict_decode(&vec![0x01, 0x00, 0x00, 0xff], 0),
        Err(Error::DataIncomplete)
    );
}
