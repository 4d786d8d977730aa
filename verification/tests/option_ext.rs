use wave_framework::lift2;
use wave_framework::lift3;

#[test]
fn test_lift2() {
    assert_eq!(Some(("a", 1)), lift2(Some("a"), Some(1)));
    assert_eq!(None, lift2::<&str, i32>(None, Some(1)));
    assert_eq!(None, lift2::<&str, i32>(Some("a"), None));
    assert_eq!(None, lift2::<&str, i32>(None, None));
}

#[test]
fn test_lift3() {
    assert_eq!(Some(("a", 1, true)), lift3(Some("a"), Some(1), Some(true)));
    assert_eq!(None, lift3::<&str, i32, bool>(None, Some(1), Some(true)));
    assert_eq!(None, lift3::<&str, i32, bool>(Some("a"), None, Some(true)));
    assert_eq!(None, lift3::<&str, i32, bool>(None, None, Some(true)));
    assert_eq!(None, lift3::<&str, i32, bool>(None, Some(1), None));
    assert_eq!(None, lift3::<&str, i32, bool>(Some("a"), Some(1), None));
}
