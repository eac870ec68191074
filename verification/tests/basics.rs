use smallmap::{Collapse, SmallMap};
use std::collections::HashMap;

fn sample_map() -> SmallMap<&'static str, i32> {
    let mut map = SmallMap::new();
    map.insert("One", 1);
    map.insert("Two", 2);
    map.insert("Four", 40);
    map
}

fn insert_like_hash_map<K, I>(data: I)
where
    K: Collapse + Copy + Eq + std::hash::Hash + std::fmt::Debug,
    I: Iterator<Item = K>,
{
    let mut small = SmallMap::new();
    let mut hash = HashMap::new();

    for (i, x) in (0..).zip(data) {
        small.insert(x, i);
        hash.insert(x, i);
    }

    assert_eq!(small.len(), hash.len());

    for (k, v) in hash.iter() {
        assert_eq!(v, small.get(k).unwrap());
    }
}

#[test]
fn iter() {
    let mut map = SmallMap::new();
    map.insert('<', ());
    map.insert('>', ());
    map.insert('|', ());

    let mut string = String::new();
    let mut entries = map.iter();
    while let Some(entry) = entries.next() {
        string.push(entry.0);
    }
    assert_eq!("<>|", &string[..])
}

#[test]
fn iter_mut() {
    let mut map = SmallMap::new();
    map.insert('<', ());
    map.insert('>', ());
    map.insert('|', ());

    let mut string = String::new();
    let mut entries = map.iter_mut();
    while let Some(&mut (x, _)) = entries.next() {
        string.push(x);
    }
    assert_eq!("<>|", &string[..])
}

#[test]
fn into_iter() {
    let mut map = SmallMap::new();
    map.insert('<', ());
    map.insert('>', ());
    map.insert('|', ());

    let mut string = String::new();
    let mut entries = map.into_iter();
    while let Some((x, _)) = entries.next() {
        string.push(x);
    }
    assert_eq!("<>|", &string[..])
}

#[test]
fn macros() {
    let map1 = sample_map();
    let map2 = {
        let mut map = SmallMap::new();
        map.insert("One", 1);
        map.insert("Two", 2);
        map.insert("Four", 40);
        map
    };
    assert_eq!(map1.len(), 3);
    assert_eq!(map1, map2);
}

#[test]
fn from_iter() {
    let pairs: Vec<(usize, ())> = (0..100).zip(std::iter::repeat(())).collect();
    let m: SmallMap<usize, ()> = SmallMap::from_iter(pairs);
    assert_eq!(m.len(), 100);
    let mut sum = 0usize;
    let mut entries = m.into_iter();
    while let Some(x) = entries.next() {
        sum += x.0;
    }
    assert_eq!((0..100).sum::<usize>(), sum);
}

#[test]
fn is_empty() {
    let map1 = sample_map();
    let map2: SmallMap<(), ()> = SmallMap::new();
    assert!(!map1.is_empty());
    assert!(map2.is_empty());
}

#[test]
fn it_works() {
    let mut map = SmallMap::new();

    map.insert('>', false);
    map.insert('<', true);
    map.insert('ł', true);

    let clone = map.clone();

    let mut entries = clone.into_iter();
    while let Some((k, v)) = entries.next() {
        assert!(map.get(&k) == Some(&v))
    }
}

#[test]
fn type_char() {
    insert_like_hash_map(TEST_STRING.chars());
}

#[test]
fn type_primitive() {
    insert_like_hash_map(TEST_STRING.chars());
    insert_like_hash_map(u8::MIN..u8::MAX);
    insert_like_hash_map(i16::MIN..i16::MAX);
    insert_like_hash_map(u16::MIN..u16::MAX);
    insert_like_hash_map(-100..1000);
    insert_like_hash_map(0..10000);
    insert_like_hash_map(-100..1000);
    insert_like_hash_map(0..10000);
    insert_like_hash_map(-100..1000);
    insert_like_hash_map(0..10000);
}

#[test]
fn reverse() {
    let map = {
        let mut map = SmallMap::new();
        map.insert("one", 1);
        map.insert("two", 2);
        map.insert("three", 3);
        map.insert("four", 4);
        map
    };
    let expected = {
        let mut map = SmallMap::new();
        map.insert(1, "one");
        map.insert(2, "two");
        map.insert(3, "three");
        map.insert(4, "four");
        map
    };

    assert_eq!(map.reverse(), expected);
    let mut sum = 0i32;
    let mut entries = expected.reverse().into_iter();
    while let Some((_, v)) = entries.next() {
        sum += v;
    }
    assert_eq!(sum, 4 + 3 + 2 + 1);
}

const TEST_STRING: &str = r#"
君のようなひとになりたいな
「僕らしいひと」になりたいな
望むならそうすりゃいいけどさ
でもそれってほんとにぼくなのかい

子供騙しな夢ひとつ
こんな僕なら死ねばいいのに

こんな僕が生きてるだけで
何万人のひとが悲しんで
誰も僕を望まない
そんな世界だったらいいのにな

こんな僕が消えちゃうだけで
何億人のひとが喜んで
誰も何も憎まないなら
そんなうれしいことはないな


明日も僕は夢うつつ
このまま僕は消えていいのに

こんな僕が生きたところで
何億人のひとは知らないし
誰も僕を望まない
そんな世界だったらいいのかな

こんな僕が消えたところで
何億人のひとは変わらない
誰も僕を憎まないなら
損した事に変わりないな

最期なんかみんな同じように倒れてゆきます
メイドイン 他人 の 「自分自身」崩れてゆきます
最期なんかみんな同じように離れてくのに

こんな僕が生きてるだけで
なんで君はそんなに笑うの
君がそんな笑顔じゃ
悲しくても消えたくても
さよならする理由なんてもう
無ければいいのに


こんな僕が消えたところで
何億人のひとは変わらない
だけど僕を止める何かが
そんな顔しちゃ笑えないや "#;
