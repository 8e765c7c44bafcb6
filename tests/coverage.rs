use todo_tracker::coverage::{
    call_excluded_stable_function, covered_function, excluded_nightly_function,
    excluded_stable_function, uncovered_function,
};
use todo_tracker::greeting::MyHelloWorld;

#[test]
fn test_covered_function() {
    assert_eq!(covered_function(5), 10);
    assert_eq!(covered_function(-1), 0);
    assert_eq!(covered_function(0), 0);
}

#[test]
fn test_excluded_nightly_function() {
    assert_eq!(excluded_nightly_function(5), 500);
}

#[test]
fn test_excluded_stable_function() {
    assert_eq!(call_excluded_stable_function(5), 1000);
}

#[test]
fn uncovered_function_branches() {
    assert_eq!(uncovered_function(11), 33);
    assert_eq!(uncovered_function(10), 11);
    assert_eq!(excluded_stable_function(-3), -600);
}

#[test]
fn greeting_reply() {
    assert_eq!(MyHelloWorld.say_hello("World"), "Hello, World!");
    assert_eq!(MyHelloWorld.say_hello(""), "Hello, !");
}
