use manga_server::utils::{ShortUnwrap, SingleOrMany, ToResult};

#[test]
fn t1() {
    let mut n = -1;
    let mut sum = 0;
    for i in 1..=100 {
        sum += i * n;
        n *= -1;
    }
    assert_eq!(sum, 50);
    let s = r"1827529-[Yuribatake Bokujou (Kon)] Otome Game no Heroine wo 3kai Ikasenaito Hametsu suru Heya ni Haitte Shimatta... Maria Uke Tsuika Patch (Otome Game no Hametsu Flag shika Nai Akuyaku Reijou ni Tensei shiteshimatta...) [Chinese] [Digital]".to_string();
    assert_eq!(s.len(), 239);
}

#[test]
fn single_or_many_tells_its_kind() {
    assert!(SingleOrMany::Single.is_single());
    assert!(!SingleOrMany::Single.is_many());
    assert!(SingleOrMany::Many(3).is_many());
    assert!(!SingleOrMany::Many(3).is_single());
    assert!(SingleOrMany::Many(0).is_many());
}

#[test]
fn single_or_many_add_counts_a_single_as_one() {
    let mut v = SingleOrMany::Single;
    v.add(4);
    assert_eq!(v, SingleOrMany::Many(5));
    v.add(0);
    assert_eq!(v, SingleOrMany::Many(5));
    v.add(7);
    assert_eq!(v, SingleOrMany::Many(12));
    let mut w = SingleOrMany::Single;
    w.add(0);
    assert_eq!(w, SingleOrMany::Many(1));
}

#[test]
fn to_result_says_what_is_missing() {
    assert_eq!(Some(7).to_result().unwrap(), 7);
    let missing: Option<u8> = None;
    let e = missing.to_result().unwrap_err();
    assert_eq!(e.message(), "unwrapping None value");
}

#[test]
fn short_unwrap_takes_the_value_out() {
    assert_eq!(Some(3).u(), 3);
    let r: Result<u8, String> = Ok(9);
    assert_eq!(r.u(), 9);
}
