use aw11::{
    AbeError, Aw11Ciphertext, add_attribute, authgen, decrypt, encrypt, find_pk_attr, keygen,
    setup,
};

#[test]
fn test_and() {
    // global setup
    let _gp = setup();
    // setup attribute authority 1 with
    // a set of three attributes "A" "B" "C"
    let mut att_authority1: Vec<String> = Vec::new();
    att_authority1.push(String::from("A"));
    att_authority1.push(String::from("B"));
    att_authority1.push(String::from("C"));
    let (_auth1_pk, _auth1_msk) = authgen(&_gp, &att_authority1).unwrap();
    // setup attribute authority 2 with
    // a set of three attributes "D" "E" "F"
    let mut att_authority2: Vec<String> = Vec::new();
    att_authority2.push(String::from("D"));
    att_authority2.push(String::from("E"));
    att_authority2.push(String::from("F"));
    let (_auth2_pk, _auth2_msk) = authgen(&_gp, &att_authority2).unwrap();
    // setup attribute authority 3 with
    // a set of three attributes "G" "H" "I"
    let mut att_authority3: Vec<String> = Vec::new();
    att_authority3.push(String::from("G"));
    att_authority3.push(String::from("H"));
    att_authority3.push(String::from("I"));
    let (_auth3_pk, _auth3_msk) = authgen(&_gp, &att_authority3).unwrap();

    // setup a user "bob" and give him some attribute-keys
    let mut att_bob: Vec<String> = Vec::new();
    att_bob.push(String::from("H"));
    att_bob.push(String::from("I"));
    let mut _bob = keygen(&_gp, &_auth3_msk, &String::from("bob"), &att_bob).unwrap();
    // our plaintext
    let _plaintext =
        String::from("dance like no one's watching, encrypt like everyone is!").into_bytes();
    // our policy
    let _policy = String::from(r#"{"AND": [{"ATT": "H"}, {"ATT": "B"}]}"#);

    let mut _pks: Vec<aw11::Aw11PublicKey> = Vec::new();
    _pks.push(_auth3_pk);
    _pks.push(_auth1_pk);

    add_attribute(&_gp, &_auth1_msk, &String::from("B"), &mut _bob).unwrap();

    // cp-abe ciphertext
    let ct_cp: Aw11Ciphertext = encrypt(&_gp, &_pks, &_policy, &_plaintext).unwrap();
    // and now decrypt again with a matching sk
    let _matching = decrypt(&_gp, &_bob, &ct_cp).unwrap();
    assert_eq!(_matching, _plaintext);
}

#[test]
fn test_or_round_trip() {
    let gp = setup();
    let attrs = vec![String::from("A"), String::from("B")];
    let (pk, msk) = authgen(&gp, &attrs).unwrap();
    let plaintext = String::from("our plaintext!").into_bytes();
    let policy = String::from(r#"{"OR": [{"ATT": "A"}, {"ATT": "B"}]}"#);
    let bob = keygen(&gp, &msk, &String::from("bob"), &vec![String::from("A")]).unwrap();
    let ct = encrypt(&gp, &vec![pk], &policy, &plaintext).unwrap();
    let matching = decrypt(&gp, &bob, &ct).unwrap();
    assert_eq!(matching, plaintext);
}

#[test]
fn test_policy_unsatisfied() {
    let gp = setup();
    let attrs = vec![String::from("A"), String::from("B")];
    let (pk, msk) = authgen(&gp, &attrs).unwrap();
    let plaintext = b"secret".to_vec();
    let policy = String::from(r#"{"AND": [{"ATT": "A"}, {"ATT": "B"}]}"#);
    let alice = keygen(&gp, &msk, &String::from("alice"), &vec![String::from("A")]).unwrap();
    let ct = encrypt(&gp, &vec![pk], &policy, &plaintext).unwrap();
    assert_eq!(decrypt(&gp, &alice, &ct), Err(AbeError::PolicyUnsatisfied));
}

#[test]
fn test_case_insensitive() {
    // The authority issues lower-case names; the policy and the user's
    // request use upper case: "a" and "A" are the same attribute.
    let gp = setup();
    let (pk, msk) = authgen(&gp, &vec![String::from("a"), String::from("b")]).unwrap();
    // names are case-normalized at insertion
    assert_eq!(pk.attrs[0].0, "A");
    assert_eq!(pk.attrs[1].0, "B");
    assert_eq!(msk.attrs[0].0, "A");
    assert_eq!(msk.attrs[1].0, "B");
    let plaintext = b"case folding".to_vec();
    let policy = String::from(r#"{"AND": [{"ATT": "A"}, {"ATT": "B"}]}"#);
    let user = keygen(
        &gp,
        &msk,
        &String::from("carol"),
        &vec![String::from("A"), String::from("b")],
    )
    .unwrap();
    assert_eq!(user.attrs[0].0, "A");
    assert_eq!(user.attrs[1].0, "B");
    let ct = encrypt(&gp, &vec![pk], &policy, &plaintext).unwrap();
    assert_eq!(decrypt(&gp, &user, &ct).unwrap(), plaintext);

    // a lower-case policy leaf is normalized in the ciphertext rows
    let lower = String::from(r#"{"ATT": "a"}"#);
    let (pk2, msk2) = authgen(&gp, &vec![String::from("A")]).unwrap();
    let ct2 = encrypt(&gp, &vec![pk2], &lower, &plaintext).unwrap();
    assert_eq!(ct2.c[0].0, "A");
    let user2 = keygen(&gp, &msk2, &String::from("erin"), &vec![String::from("a")]).unwrap();
    assert_eq!(decrypt(&gp, &user2, &ct2).unwrap(), plaintext);
}

#[test]
fn test_multi_authority_composition() {
    // Two independently run authorities over disjoint attribute sets,
    // combined in one policy spanning both.
    let gp = setup();
    let (pk1, msk1) = authgen(&gp, &vec![String::from("X")]).unwrap();
    let (pk2, msk2) = authgen(&gp, &vec![String::from("Y")]).unwrap();
    let plaintext = b"spanning two authorities".to_vec();
    let policy = String::from(r#"{"AND": [{"ATT": "X"}, {"ATT": "Y"}]}"#);
    let mut dave = keygen(&gp, &msk1, &String::from("dave"), &vec![String::from("X")]).unwrap();
    add_attribute(&gp, &msk2, &String::from("Y"), &mut dave).unwrap();
    let ct = encrypt(&gp, &vec![pk1, pk2], &policy, &plaintext).unwrap();
    assert_eq!(decrypt(&gp, &dave, &ct).unwrap(), plaintext);
}

#[test]
fn test_tamper_detection() {
    let gp = setup();
    let (pk, msk) = authgen(&gp, &vec![String::from("A")]).unwrap();
    let plaintext = b"tamper with me".to_vec();
    let policy = String::from(r#"{"ATT": "A"}"#);
    let user = keygen(&gp, &msk, &String::from("eve"), &vec![String::from("A")]).unwrap();
    let ct = encrypt(&gp, &vec![pk], &policy, &plaintext).unwrap();
    let n = ct.ct.len();
    for pos in [0, n / 2, n - 1] {
        for bit in 0..8 {
            let mut tampered = Aw11Ciphertext {
                policy: ct.policy.clone(),
                c_0: ct.c_0,
                c: ct.c.clone(),
                ct: ct.ct.clone(),
            };
            tampered.ct[pos] ^= 1 << bit;
            assert_eq!(
                decrypt(&gp, &user, &tampered),
                Err(AbeError::SymmetricDecryptFailure)
            );
        }
    }
}

#[test]
fn test_scenario_add_then_remove() {
    // authority3 governs {G,H,I}; authority1 governs {A,B,C}; bob gets
    // {H,I} from authority3 and later B from authority1. With B he
    // decrypts; with B removed from his key he is refused.
    let gp = setup();
    let (pk1, msk1) = authgen(
        &gp,
        &vec![String::from("A"), String::from("B"), String::from("C")],
    )
    .unwrap();
    let (pk3, msk3) = authgen(
        &gp,
        &vec![String::from("G"), String::from("H"), String::from("I")],
    )
    .unwrap();
    let mut bob = keygen(
        &gp,
        &msk3,
        &String::from("bob"),
        &vec![String::from("H"), String::from("I")],
    )
    .unwrap();
    add_attribute(&gp, &msk1, &String::from("B"), &mut bob).unwrap();
    let plaintext = b"M".to_vec();
    let policy = String::from(r#"{"AND":[{"ATT":"H"},{"ATT":"B"}]}"#);
    let ct = encrypt(&gp, &vec![pk3, pk1], &policy, &plaintext).unwrap();
    assert_eq!(decrypt(&gp, &bob, &ct).unwrap(), plaintext);
    bob.attrs.retain(|e| e.0 != "B");
    assert_eq!(decrypt(&gp, &bob, &ct), Err(AbeError::PolicyUnsatisfied));
}

#[test]
fn test_empty_inputs() {
    let gp = setup();
    assert!(matches!(
        authgen(&gp, &Vec::new()),
        Err(AbeError::EmptyInput)
    ));
    let (_pk, msk) = authgen(&gp, &vec![String::from("A")]).unwrap();
    assert!(matches!(
        keygen(&gp, &msk, &String::from("bob"), &Vec::new()),
        Err(AbeError::EmptyInput)
    ));
    assert!(matches!(
        keygen(&gp, &msk, &String::new(), &vec![String::from("A")]),
        Err(AbeError::EmptyInput)
    ));
    let mut sk = keygen(&gp, &msk, &String::from("bob"), &vec![String::from("A")]).unwrap();
    assert_eq!(
        add_attribute(&gp, &msk, &String::new(), &mut sk),
        Err(AbeError::EmptyInput)
    );
}

#[test]
fn test_attribute_not_found() {
    let gp = setup();
    let (pk, msk) = authgen(&gp, &vec![String::from("A")]).unwrap();
    assert!(matches!(
        keygen(&gp, &msk, &String::from("bob"), &vec![String::from("Z")]),
        Err(AbeError::AttributeNotFound)
    ));
    let mut sk = keygen(&gp, &msk, &String::from("bob"), &vec![String::from("A")]).unwrap();
    assert_eq!(
        add_attribute(&gp, &msk, &String::from("Z"), &mut sk),
        Err(AbeError::AttributeNotFound)
    );
    let policy = String::from(r#"{"ATT": "Z"}"#);
    assert!(matches!(
        encrypt(&gp, &vec![pk], &policy, b"x"),
        Err(AbeError::AttributeNotFound)
    ));
}

#[test]
fn test_policy_parse_error() {
    let gp = setup();
    let (pk, _msk) = authgen(&gp, &vec![String::from("A")]).unwrap();
    let pks = vec![pk];
    for bad in [
        r#"{"XOR": [{"ATT": "A"}]}"#,
        r#"{"AND": []}"#,
        r#"{"ATT": "A""#,
        r#"hello"#,
        r#""#,
        r#"{"ATT": "A\""}"#,
    ] {
        assert!(matches!(
            encrypt(&gp, &pks, &String::from(bad), b"x"),
            Err(AbeError::PolicyParseError)
        ));
    }
}

#[test]
fn test_nested_policy_round_trip() {
    // A three-way conjunction folds into nested binary nodes; a nested
    // disjunction under it still decrypts with a partial attribute set.
    let gp = setup();
    let (pk, msk) = authgen(
        &gp,
        &vec![String::from("A"), String::from("B"), String::from("C")],
    )
    .unwrap();
    let plaintext = b"nested".to_vec();
    let policy =
        String::from(r#"{"AND": [{"ATT": "A"}, {"OR": [{"ATT": "B"}, {"ATT": "C"}]}]}"#);
    let pks = vec![pk];
    let user = keygen(
        &gp,
        &msk,
        &String::from("frank"),
        &vec![String::from("A"), String::from("C")],
    )
    .unwrap();
    let ct = encrypt(&gp, &pks, &policy, &plaintext).unwrap();
    assert_eq!(decrypt(&gp, &user, &ct).unwrap(), plaintext);

    let wide = String::from(r#"{"AND":[{"ATT":"A"},{"ATT":"B"},{"ATT":"C"}]}"#);
    let all = keygen(
        &gp,
        &msk,
        &String::from("grace"),
        &vec![String::from("A"), String::from("B"), String::from("C")],
    )
    .unwrap();
    let ct2 = encrypt(&gp, &pks, &wide, &plaintext).unwrap();
    assert_eq!(decrypt(&gp, &all, &ct2).unwrap(), plaintext);
    // "grace" without "C" does not satisfy the three-way conjunction
    assert_eq!(decrypt(&gp, &user, &ct2), Err(AbeError::PolicyUnsatisfied));
}

#[test]
fn test_internal_inconsistency_on_missing_rows() {
    // A ciphertext that carries a policy but has lost its rows cannot be
    // reconstructed, and says so distinctly from an access denial.
    let gp = setup();
    let (pk, msk) = authgen(&gp, &vec![String::from("A")]).unwrap();
    let user = keygen(&gp, &msk, &String::from("henry"), &vec![String::from("A")]).unwrap();
    let mut ct = encrypt(&gp, &vec![pk], &String::from(r#"{"ATT": "A"}"#), b"x").unwrap();
    ct.c.clear();
    assert_eq!(
        decrypt(&gp, &user, &ct),
        Err(AbeError::InternalInconsistency)
    );
}

#[test]
fn test_find_pk_attr() {
    let gp = setup();
    let (pk1, _m1) = authgen(&gp, &vec![String::from("A")]).unwrap();
    let (pk2, _m2) = authgen(&gp, &vec![String::from("B")]).unwrap();
    let pks = vec![pk1, pk2];
    let found = find_pk_attr(&pks, &String::from("b")).unwrap();
    assert_eq!(found.0, "B");
    assert!(find_pk_attr(&pks, &String::from("C")).is_none());
}
