use cpulamp::slist::clear;
use cpulamp::slist::iter;
use cpulamp::slist::iter_mut;
use cpulamp::slist::len;
use cpulamp::slist::resize_with;
use cpulamp::slist::try_for_each_and_resize;
use cpulamp::slist::Link;

#[test]
fn resize_grows_and_shrinks() {
    let mut head: Link<usize> = None;
    resize_with(&mut head, 3, &|i: usize| i * 10);
    assert_eq!(iter(&head), vec![0, 10, 20]);
    assert_eq!(len(&head), 3);
    resize_with(&mut head, 1, &|i: usize| i * 10);
    assert_eq!(iter(&head), vec![0]);
    resize_with(&mut head, 2, &|i: usize| i + 100);
    assert_eq!(iter(&head), vec![0, 101]);
}

#[test]
fn clear_empties() {
    let mut head: Link<u32> = None;
    resize_with(&mut head, 4, &|_i: usize| 7u32);
    clear(&mut head);
    assert_eq!(len(&head), 0);
    assert_eq!(iter(&head), Vec::<u32>::new());
}

#[test]
fn iter_mut_maps_in_place() {
    let mut head: Link<u32> = None;
    resize_with(&mut head, 3, &|i: usize| i as u32);
    iter_mut(&mut head, &|x: u32| x + 1);
    assert_eq!(iter(&head), vec![1, 2, 3]);
}

#[test]
fn lockstep_update_commits_all() {
    let mut head: Link<i64> = None;
    resize_with(&mut head, 1, &|_i: usize| 5i64);
    let items: Vec<i64> = vec![1, 2, 3];
    let res = try_for_each_and_resize(
        &mut head,
        &items,
        &|s: i64| s * 100,
        &|t: i64, s: i64| Ok::<i64, &str>(t + s),
    );
    assert!(res.is_ok());
    assert_eq!(iter(&head), vec![6, 202, 303]);
}

#[test]
fn lockstep_update_failure_commits_nothing() {
    let mut head: Link<i64> = None;
    resize_with(&mut head, 1, &|_i: usize| 5i64);
    let items: Vec<i64> = vec![1, 2, 3];
    let res = try_for_each_and_resize(
        &mut head,
        &items,
        &|s: i64| s * 100,
        &|t: i64, s: i64| if s == 2 { Err("stop") } else { Ok(t + s) },
    );
    assert_eq!(res, Err("stop"));
    assert_eq!(iter(&head), vec![5]);
}
