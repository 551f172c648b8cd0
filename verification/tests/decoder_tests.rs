use pspspsps::decoder::MINIMUM_LETTERS;
use pspspsps::CatInstruction;

#[test]
fn pspspspsps_to_usize_test() {
    let good_examples = "pspspsps pspsps pspsp psps pspspsps";
    let needed_results = [8, 6, 5, 4, 8];

    for (index, substring) in good_examples.split_ascii_whitespace().enumerate() {
        let result = CatInstruction::pspspspsps_to_usize(substring);

        assert!(result.is_ok());
        assert_eq!(result.unwrap(), needed_results[index]);
    }

    let bad_examples = "pspspspspsspsps pss piss pee poop ppsspspsppp pspspspps fuck i think i screwed it up";

    for substring in bad_examples.split_ascii_whitespace() {
        assert!(CatInstruction::pspspspsps_to_usize(substring).is_err());
    }
}

#[test]
fn token_lengths_map_to_opcodes() {
    assert_eq!(CatInstruction::from_token("psp"), Ok(CatInstruction::MoveRight));
    assert_eq!(CatInstruction::from_token("psps"), Ok(CatInstruction::MoveLeft));
    assert_eq!(CatInstruction::from_token("pspsp"), Ok(CatInstruction::Increment));
    assert_eq!(CatInstruction::from_token("pspsps"), Ok(CatInstruction::Decrement));
    assert_eq!(CatInstruction::from_token("pspspsp"), Ok(CatInstruction::JumpForward));
    assert_eq!(CatInstruction::from_token("pspspsps"), Ok(CatInstruction::JumpBack));
    assert_eq!(CatInstruction::from_token("pspspspsp"), Ok(CatInstruction::Output));
    assert_eq!(CatInstruction::from_token("pspspspsps"), Ok(CatInstruction::Input));
}

#[test]
fn malformed_tokens_all_fail_alike() {
    // Too short for the minimum length.
    assert_eq!(CatInstruction::from_token(""), Err(()));
    assert_eq!(CatInstruction::from_token("p"), Err(()));
    assert_eq!(CatInstruction::from_token("ps"), Err(()));
    // One past the last opcode index.
    assert_eq!(CatInstruction::from_token("pspspspspsp"), Err(()));
    // Alternation broken at various positions.
    assert_eq!(CatInstruction::from_token("spsp"), Err(()));
    assert_eq!(CatInstruction::from_token("ppsp"), Err(()));
    assert_eq!(CatInstruction::from_token("pssp"), Err(()));
    assert_eq!(CatInstruction::from_token("pspp"), Err(()));
    assert_eq!(CatInstruction::from_token("meow"), Err(()));
}

#[test]
fn from_index_covers_the_table() {
    assert_eq!(CatInstruction::from_index(0), Ok(CatInstruction::MoveRight));
    assert_eq!(CatInstruction::from_index(7), Ok(CatInstruction::Input));
    assert_eq!(CatInstruction::from_index(8), Err(()));
    assert_eq!(CatInstruction::from_index(usize::MAX), Err(()));
    assert_eq!(MINIMUM_LETTERS, 3);
}

#[test]
fn loading_keeps_source_order_and_drops_junk() {
    let loaded = CatInstruction::pspspspsps_to_vec("psp  psps\njunk\tpspsp");
    assert_eq!(
        loaded,
        vec![
            CatInstruction::MoveRight,
            CatInstruction::MoveLeft,
            CatInstruction::Increment,
        ]
    );
}

#[test]
fn loading_with_junk_matches_loading_without() {
    let with_junk = "pspsp what is pspsps this pspspsp even p saying pspspsps";
    let without_junk = "pspsp pspsps pspspsp pspspsps";
    assert_eq!(
        CatInstruction::pspspspsps_to_vec(with_junk),
        CatInstruction::pspspspsps_to_vec(without_junk)
    );
}

#[test]
fn loading_nothing_or_only_junk_yields_an_empty_program() {
    assert_eq!(CatInstruction::pspspspsps_to_vec(""), vec![]);
    assert_eq!(CatInstruction::pspspspsps_to_vec("   \n\t "), vec![]);
    assert_eq!(CatInstruction::pspspspsps_to_vec("purely ss commentary"), vec![]);
}
