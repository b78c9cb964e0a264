use lfr::stdx::{
    Also, AndThenDo, CloneTo, CopyTo, TakeIfUnless, TakeIfUnlessOwned, With, WithRef, WithRefMut,
};

#[derive(Debug, PartialEq, Eq)]
struct P(i32);

struct Words;

impl ToOwned for Words {
    type Owned = String;

    fn to_owned(&self) -> String {
        "words".to_string()
    }
}

impl std::borrow::Borrow<Words> for String {
    fn borrow(&self) -> &Words {
        &Words
    }
}

impl TakeIfUnlessOwned for Words {}

#[test]
fn copy_to_copies_and_returns() {
    let mut i = 1;
    assert_eq!(2, 2.copy_to(&mut i));
    assert_eq!(i, 2);
}

#[test]
fn clone_to_clones_and_returns() {
    let mut a = 0;
    assert_eq!(&1, 1_i32.clone_to_ref(&mut a));
    assert_eq!(1, a);
    let mut b = 0;
    assert_eq!(&mut 1, 1_i32.clone_to_ref_mut(&mut b));
    assert_eq!(1, b);
    let mut c = String::new();
    assert_eq!("x", "x".to_string().clone_to(&mut c));
    assert_eq!("x", c);
}

#[test]
fn with_hands_the_value_on() {
    assert_eq!(2, 1.with(|it| it + 1));
    assert_eq!(String::from("aaa"), "aaa".with_ref(|it| it.to_string()));
    let mut p = P(0);
    assert_eq!(
        1,
        p.with_ref_mut(|it| {
            it.0 = 1;
            it.0
        })
    );
    assert_eq!(P(1), p);
}

#[test]
fn also_changes_on_the_way() {
    assert_eq!(vec![1, 2], vec![1].also(|it| it.push(2)));
    assert_eq!(3, 3.also(|_| 7));
}

#[test]
fn take_if_and_take_unless() {
    assert_eq!(Some(4), 4.take_if(|it| *it > 3));
    assert_eq!(None, 3.take_if(|it| *it > 3));
    assert_eq!(None, 4.take_unless(|it| *it > 3));
    assert_eq!(Some(3), 3.take_unless(|it| *it > 3));
}

#[test]
fn take_if_owned_makes_owned() {
    assert_eq!(Some("words".to_string()), Words.take_if_owned(|_| true));
    assert_eq!(None, Words.take_if_owned(|_| false));
    assert_eq!(None, Words.take_unless_owned(|_| true));
    assert_eq!(Some("words".to_string()), Words.take_unless_owned(|_| false));
}

#[test]
fn and_then_do_acts_on_a_value_only() {
    let mut seen = Vec::new();
    Some(1).and_then_do(|it| seen.push(it));
    None::<i32>.and_then_do(|it| seen.push(it));
    Ok::<i32, ()>(2).and_then_do(|it| seen.push(it));
    Err::<i32, ()>(()).and_then_do(|it| seen.push(it));
    assert_eq!(seen, vec![1, 2]);
}
