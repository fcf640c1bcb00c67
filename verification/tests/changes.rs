use media_sync::changes::{
    determine_required_change as d, LocalState as L, RequiredChange as R,
};

#[test]
fn required_change() {
    assert_eq!(d("", "", L::NotInDB), R::Nothing);
    assert_eq!(d("", "", L::InDBNotPending), R::Delete);
    assert_eq!(d("", "1", L::InDBAndPending), R::Download);
    assert_eq!(d("1", "", L::InDBAndPending), R::Nothing);
    assert_eq!(d("1", "", L::InDBNotPending), R::Delete);
    assert_eq!(d("1", "1", L::InDBNotPending), R::Nothing);
    assert_eq!(d("1", "1", L::InDBAndPending), R::RemovePending);
    assert_eq!(d("a", "b", L::InDBAndPending), R::Download);
    assert_eq!(d("a", "b", L::InDBNotPending), R::Download);
}
