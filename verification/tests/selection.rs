use robohash::colour::Colour;
use robohash::colour_selection;
use robohash::error::Error;
use robohash::hash::sha512_digest;
use robohash::hash::split_hash;
use robohash::materials::catalog_of;
use robohash::materials::CategoryListing;
use robohash::selection::pick_assets;
use robohash::random_colour;
use robohash::selected_set;
use robohash::set_type::SetType;
use robohash::ImageSize;
use robohash::RoboHash;
use robohash::RoboHashBuilder;

fn names(prefix: &str, count: usize) -> Vec<String> {
    (0..count).map(|i| format!("{:03}#{}{}.png", i, prefix, i)).collect()
}

fn category(name: &str, files: Vec<String>) -> CategoryListing {
    CategoryListing {
        name: String::from(name),
        files: Some(files),
    }
}

/// What a directory may give for a set of five categories: neither the
/// categories nor their files come in order.
fn set4() -> Vec<CategoryListing> {
    let mut eyes = names("eyes", 10);
    eyes.reverse();
    let mut fur = names("fur", 10);
    fur.swap(0, 9);
    fur.swap(3, 6);
    vec![
        category("002#02eyes", eyes),
        category("004#04accessories", names("accessory", 4)),
        category("000#00body", names("body", 5)),
        category("003#03mouth", names("mouth", 10)),
        category("001#01fur", fur),
    ]
}

fn indices_of(text: &str) -> Vec<i64> {
    split_hash(&sha512_digest(text), 11).unwrap()
}

#[test]
fn colours_have_their_segments_and_any_has_none() {
    assert_eq!(Colour::Any.as_str(), None);
    assert_eq!(Colour::Blue.as_str(), Some("blue"));
    assert_eq!(Colour::Brown.as_str(), Some("brown"));
    assert_eq!(Colour::Green.as_str(), Some("green"));
    assert_eq!(Colour::Grey.as_str(), Some("grey"));
    assert_eq!(Colour::Orange.as_str(), Some("orange"));
    assert_eq!(Colour::Pink.as_str(), Some("pink"));
    assert_eq!(Colour::Purple.as_str(), Some("purple"));
    assert_eq!(Colour::Red.as_str(), Some("red"));
    assert_eq!(Colour::White.as_str(), Some("white"));
    assert_eq!(Colour::Yellow.as_str(), Some("yellow"));
}

#[test]
fn sets_have_their_segments() {
    assert_eq!(SetType::Default.as_str(), "set1");
    assert_eq!(SetType::Set1.as_str(), "set1");
    assert_eq!(SetType::Set2.as_str(), "set2");
    assert_eq!(SetType::Set3.as_str(), "set3");
    assert_eq!(SetType::Set4.as_str(), "set4");
    assert_eq!(SetType::Set5.as_str(), "set5");
}

#[test]
fn only_the_base_set_has_colours() {
    assert!(SetType::Default.is_colour_bearing());
    assert!(SetType::Set1.is_colour_bearing());
    assert!(!SetType::Set2.is_colour_bearing());
    assert!(!SetType::Set3.is_colour_bearing());
    assert!(!SetType::Set4.is_colour_bearing());
    assert!(!SetType::Set5.is_colour_bearing());
}

#[test]
fn the_candidates_are_all_but_the_sentinels() {
    assert_eq!(
        Colour::all_candidates(),
        vec![
            Colour::Blue,
            Colour::Brown,
            Colour::Green,
            Colour::Grey,
            Colour::Orange,
            Colour::Pink,
            Colour::Purple,
            Colour::Red,
            Colour::White,
            Colour::Yellow,
        ]
    );
    assert_eq!(
        SetType::all_candidates(),
        vec![
            SetType::Set1,
            SetType::Set2,
            SetType::Set3,
            SetType::Set4,
            SetType::Set5,
        ]
    );
}

#[test]
fn the_first_index_counts_round_the_colours() {
    assert_eq!(random_colour(&vec![0]), Colour::Blue);
    assert_eq!(random_colour(&vec![9, 3]), Colour::Yellow);
    assert_eq!(random_colour(&vec![10]), Colour::Blue);
    assert_eq!(random_colour(&vec![16145521472556]), Colour::Purple);
    assert_eq!(random_colour(&vec![i64::MAX]), Colour::Red);
}

#[test]
fn the_second_index_counts_round_the_sets() {
    assert_eq!(selected_set(&vec![7, 0], &SetType::Default), SetType::Set1);
    assert_eq!(selected_set(&vec![7, 4], &SetType::Default), SetType::Set5);
    assert_eq!(selected_set(&vec![7, 5], &SetType::Default), SetType::Set1);
    assert_eq!(
        selected_set(&indices_of("initial_string"), &SetType::Default),
        SetType::Set4
    );
}

#[test]
fn a_pinned_set_is_kept() {
    assert_eq!(selected_set(&vec![], &SetType::Set3), SetType::Set3);
    assert_eq!(selected_set(&vec![7, 4], &SetType::Set1), SetType::Set1);
}

#[test]
fn the_colour_goes_by_the_table() {
    let indices = vec![3, 0];
    // a set with colours in any colour: derived
    assert_eq!(colour_selection(&indices, &Colour::Any, &SetType::Set1), Colour::Grey);
    assert_eq!(colour_selection(&indices, &Colour::Any, &SetType::Default), Colour::Grey);
    // a set with colours in a colour: as asked
    assert_eq!(colour_selection(&indices, &Colour::Red, &SetType::Set1), Colour::Red);
    assert_eq!(colour_selection(&indices, &Colour::Red, &SetType::Default), Colour::Red);
    // a set without colours in a colour: derived
    assert_eq!(colour_selection(&indices, &Colour::Red, &SetType::Set2), Colour::Grey);
    assert_eq!(colour_selection(&indices, &Colour::Blue, &SetType::Set5), Colour::Grey);
    // a set without colours in any colour: as asked
    assert_eq!(colour_selection(&indices, &Colour::Any, &SetType::Set3), Colour::Any);
    assert_eq!(colour_selection(&vec![], &Colour::Any, &SetType::Set4), Colour::Any);
}

#[test]
fn the_assets_of_the_initial_string_are_the_known_ones() {
    let robo_hash = RoboHashBuilder::new("initial_string").build().unwrap();
    assert_eq!(robo_hash.set(), "set4");
    assert_eq!(robo_hash.set_directory().unwrap(), "./sets/set4");
    let files = robo_hash.files_in_set(&set4()).unwrap();
    assert_eq!(
        files,
        vec![
            String::from("./sets/set4/000#00body/003#body3.png"),
            String::from("./sets/set4/001#01fur/006#fur6.png"),
            String::from("./sets/set4/002#02eyes/008#eyes8.png"),
            String::from("./sets/set4/003#03mouth/007#mouth7.png"),
            String::from("./sets/set4/004#04accessories/003#accessory3.png"),
        ]
    );
}

#[test]
fn the_order_a_directory_gives_its_entries_in_does_not_matter() {
    let robo_hash = RoboHashBuilder::new("initial_string").build().unwrap();
    let mut turned = set4();
    turned.reverse();
    for listing in turned.iter_mut() {
        if let Some(files) = listing.files.as_mut() {
            files.sort();
            files.reverse();
        }
    }
    assert_eq!(robo_hash.files_in_set(&set4()), robo_hash.files_in_set(&turned));
}

#[test]
fn a_catalog_has_its_categories_and_files_in_lexical_order() {
    let listing = vec![
        category("b", vec![String::from("2.png"), String::from("1.png")]),
        CategoryListing {
            name: String::from("c"),
            files: None,
        },
        category("a", vec![String::from("z.png")]),
        category("d", vec![]),
    ];
    assert_eq!(
        catalog_of("root/set2", &listing),
        vec![
            vec![String::from("root/set2/a/z.png")],
            vec![
                String::from("root/set2/b/1.png"),
                String::from("root/set2/b/2.png"),
            ],
            vec![],
            vec![],
        ]
    );
    assert_eq!(catalog_of("root", &vec![]), Vec::<Vec<String>>::new());
}

#[test]
fn a_category_that_could_not_be_listed_is_skipped() {
    let robo_hash = RoboHash::from_parts(
        ImageSize::default(),
        vec![0, 0, 0, 0, 1, 1],
        String::from("set3"),
        String::from("root"),
    );
    let listing = vec![
        category("000#00a", vec![String::from("000#x"), String::from("001#y")]),
        CategoryListing {
            name: String::from("001#01b"),
            files: None,
        },
        category("002#02c", vec![String::from("000#x"), String::from("001#y")]),
    ];
    assert_eq!(
        robo_hash.files_in_set(&listing),
        Ok(vec![
            String::from("root/set3/000#00a/001#y"),
            String::from("root/set3/002#02c/001#y"),
        ])
    );
}

#[test]
fn the_categories_are_served_from_the_fifth_slot_on() {
    let indices = vec![100, 100, 100, 100, 1, 2, 3];
    let categories = vec![
        vec![String::from("a#0#x"), String::from("a#0#y"), String::from("a#0#z")],
        vec![String::from("b#1#x"), String::from("b#1#y"), String::from("b#1#z")],
        vec![String::from("c#2#x"), String::from("c#2#y")],
    ];
    assert_eq!(
        pick_assets(&indices, &categories),
        Ok(vec![
            String::from("a#0#y"),
            String::from("b#1#z"),
            String::from("c#2#y"),
        ])
    );
}

#[test]
fn an_empty_category_is_skipped_and_uses_no_slot() {
    let indices = vec![0, 0, 0, 0, 1, 2];
    let categories = vec![
        vec![String::from("a#0#x"), String::from("a#0#y"), String::from("a#0#z")],
        vec![],
        vec![],
        vec![String::from("b#1#x"), String::from("b#1#y"), String::from("b#1#z")],
    ];
    assert_eq!(
        pick_assets(&indices, &categories),
        Ok(vec![String::from("a#0#y"), String::from("b#1#z")])
    );
}

#[test]
fn a_catalog_without_assets_gives_no_files() {
    assert_eq!(pick_assets(&vec![1, 2], &vec![]), Ok(vec![]));
    assert_eq!(pick_assets(&vec![1, 2], &vec![vec![], vec![]]), Ok(vec![]));
    assert_eq!(pick_assets(&vec![], &vec![vec![]]), Ok(vec![]));
}

#[test]
fn an_index_array_without_a_slot_for_a_category_is_refused() {
    let categories = vec![vec![String::from("a#0#x")], vec![String::from("b#1#x")]];
    assert_eq!(
        pick_assets(&vec![1, 2], &categories),
        Err(Error::RoboHashMissingRequiredData)
    );
    assert_eq!(
        pick_assets(&vec![0, 0, 0, 0, 0], &categories),
        Err(Error::RoboHashMissingRequiredData)
    );
    assert_eq!(
        pick_assets(&vec![0, 0, 0, 0, 0, 0], &categories),
        Ok(vec![String::from("a#0#x"), String::from("b#1#x")])
    );
    let robo_hash = RoboHash::from_parts(
        ImageSize::default(),
        vec![1, 2],
        String::from("set1"),
        String::from("root"),
    );
    let listing = vec![category("a", vec![String::from("0#x")])];
    assert_eq!(
        robo_hash.files_in_set(&listing),
        Err(Error::RoboHashMissingRequiredData)
    );
    assert_eq!(robo_hash.files_in_set(&vec![]), Ok(vec![]));
}

#[test]
fn a_built_plan_serves_eighteen_categories() {
    let robo_hash = RoboHashBuilder::new("text").build().unwrap();
    assert_eq!(robo_hash.hash_array().len(), 22);
    let eighteen: Vec<CategoryListing> = (0..18)
        .map(|i| category(&format!("{:03}#{:02}c", i, i), vec![String::from("000#f.png")]))
        .collect();
    assert_eq!(robo_hash.files_in_set(&eighteen).unwrap().len(), 18);
    let nineteen: Vec<CategoryListing> = (0..19)
        .map(|i| category(&format!("{:03}#{:02}c", i, i), vec![String::from("000#f.png")]))
        .collect();
    assert_eq!(
        robo_hash.files_in_set(&nineteen),
        Err(Error::RoboHashMissingRequiredData)
    );
}

#[test]
fn the_chosen_assets_are_put_in_the_order_of_their_tags() {
    let robo_hash = RoboHash::from_parts(
        ImageSize::default(),
        vec![0, 0, 0, 0, 0, 0, 0],
        String::from("set2"),
        String::from("root"),
    );
    let listing = vec![
        category("eyes", vec![String::from("000#02#eyes.png")]),
        category("body", vec![String::from("000#00#body.png")]),
        category("mouth", vec![String::from("000#01#mouth.png")]),
    ];
    assert_eq!(
        robo_hash.files_in_set(&listing),
        Ok(vec![
            String::from("root/set2/body/000#00#body.png"),
            String::from("root/set2/mouth/000#01#mouth.png"),
            String::from("root/set2/eyes/000#02#eyes.png"),
        ])
    );
}

#[test]
fn every_chosen_asset_comes_from_a_category_of_its_own() {
    for text in ["a", "b", "robot", "initial_string", "text"] {
        let robo_hash = RoboHashBuilder::new(text)
            .with_set(SetType::Set4)
            .build()
            .unwrap();
        let catalog = catalog_of("./sets/set4", &set4());
        let files = robo_hash.files_in_set(&set4()).unwrap();
        assert_eq!(files.len(), catalog.len());
        for (file, assets) in files.iter().zip(catalog.iter()) {
            assert!(assets.contains(file));
        }
    }
}

#[test]
fn choosing_twice_gives_the_same_assets() {
    let robo_hash = RoboHashBuilder::new("robot").build().unwrap();
    assert_eq!(robo_hash.files_in_set(&set4()), robo_hash.files_in_set(&set4()));
}
