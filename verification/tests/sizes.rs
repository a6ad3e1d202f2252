use leshy::vm::api::{NodeKind, Ref};
use leshy::vm::aux::specialized_interpreter_engine::SpecializedInterpreterEngine;
use leshy::vm::driver::driver::NodeId;

#[test]
fn api_test_sizes() {
    assert_eq!(4, std::mem::size_of::<Ref>())
}

#[test]
fn specialized_interpreter_engine_test_sizes() {
    assert_eq!(8, SpecializedInterpreterEngine::packed_size());
    assert_eq!(40, std::mem::size_of::<NodeKind<NodeId>>());
}

#[test]
fn caching_interpreter_test_sizes() {
    assert_eq!(8, SpecializedInterpreterEngine::packed_size());
    assert_eq!(40, std::mem::size_of::<NodeKind<NodeId>>());
}

#[test]
fn interpreter_engine_test_sizes() {
    assert_eq!(40, std::mem::size_of::<Option<NodeKind<NodeId>>>());
}
