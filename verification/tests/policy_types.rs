use specgate::policy::types::PolicyDiffExit;

#[test]
fn policy_diff_exit_codes_are_stable() {
    assert_eq!(PolicyDiffExit::Clean.code(), 0);
    assert_eq!(PolicyDiffExit::Widening.code(), 1);
    assert_eq!(PolicyDiffExit::RuntimeError.code(), 2);
}
