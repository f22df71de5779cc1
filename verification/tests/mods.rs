//! Mod layering: raw tiles, registries, merge order and version checks.
use parcello::mods::{
    check_min_version, parse_version, ModData, ModError, ModInfo, ModManifest, RegistryBuilder,
    TileRaw,
};
use parcello::{
    CardDef, CardEffect, ContentError, MarketEffect, MarketEventDef, RentModel, TileKind,
};

fn raw(id: &str, kind: &str) -> TileRaw {
    TileRaw {
        id: id.into(),
        name: id.to_uppercase(),
        kind: kind.into(),
        group: None,
        price: None,
        house_cost: None,
        rents: None,
        rent_model: None,
        amount: None,
        min_pct: None,
        max_pct: None,
    }
}

fn property(id: &str, price: i64) -> TileRaw {
    TileRaw {
        group: Some("brown".into()),
        price: Some(price),
        house_cost: Some(50),
        rents: Some([2, 10, 30, 90, 160, 250]),
        ..raw(id, "property")
    }
}

fn manifest(id: &str, min: Option<&str>) -> ModManifest {
    ModManifest {
        id: id.into(),
        version: "1.0.0".into(),
        author: None,
        min_game_version: min.map(Into::into),
    }
}

fn data(tiles: Vec<TileRaw>) -> ModData {
    ModData {
        tiles,
        chance: vec![],
        community: vec![],
        events: vec![],
        forecast_gap_turns: None,
        rules: vec![],
    }
}

fn base() -> ModData {
    ModData {
        chance: vec![CardDef {
            id: "ch_bonus".into(),
            text: "Bank pays you 50".into(),
            effect: CardEffect::Money { amount: 50 },
        }],
        rules: vec![("starting_balance".into(), 1500)],
        ..data(vec![
            raw("go", "go"),
            property("ave_a", 60),
            raw("chance_1", "chance"),
            raw("jail", "jail"),
        ])
    }
}

fn crash(name: &str, pct: i64) -> MarketEventDef {
    MarketEventDef {
        id: "crash".into(),
        name: name.into(),
        effect: MarketEffect::RentMultiplier,
        magnitude_pct: pct,
        duration_turns: 4,
    }
}

#[test]
fn versions_read_leniently() {
    assert_eq!(parse_version("1.2.3"), Some((1, 2, 3)));
    assert_eq!(parse_version(" 2 "), Some((2, 0, 0)));
    assert_eq!(parse_version("1.4"), Some((1, 4, 0)));
    assert_eq!(parse_version("1.2.3.4"), Some((1, 2, 3)));
    assert_eq!(parse_version("+1.0"), Some((1, 0, 0)));
    assert_eq!(parse_version("1.x"), None);
    assert_eq!(parse_version(""), None);
    assert_eq!(parse_version("99999999999.0"), None);
}

#[test]
fn newer_requirements_are_refused_and_garbage_is_let_through() {
    let err = check_min_version(&manifest("future", Some("99.0.0")), "0.1.0").unwrap_err();
    assert!(matches!(err, ModError::IncompatibleVersion { ref required, .. } if required == "99.0.0"));
    assert!(check_min_version(&manifest("odd", Some("tomorrow")), "0.1.0").is_ok());
    assert!(check_min_version(&manifest("old", Some("0.0.9")), "0.1.0").is_ok());
    assert!(check_min_version(&manifest("none", None), "0.1.0").is_ok());
}

#[test]
fn raw_tiles_convert_by_type() {
    assert_eq!(raw("g", "go").into_def("m").unwrap().kind, TileKind::Go);
    assert_eq!(raw("s", "spotlight").into_def("m").unwrap().kind, TileKind::Spotlight);
    let tax = TileRaw { amount: Some(100), ..raw("t", "tax") };
    assert_eq!(tax.into_def("m").unwrap().kind, TileKind::Tax { amount: 100 });
    let audit = TileRaw { min_pct: Some(5), max_pct: Some(25), ..raw("a", "net_worth_tax") };
    assert_eq!(
        audit.into_def("m").unwrap().kind,
        TileKind::NetWorthTax { min_pct: 5, max_pct: 25 }
    );
    let station = TileRaw {
        group: Some("transit".into()),
        price: Some(200),
        rents: Some([25, 50, 100, 200, 0, 0]),
        rent_model: Some(RentModel::GroupScaled),
        ..raw("st", "property")
    };
    let def = station.into_def("m").unwrap();
    assert_eq!(def.id, "st");
    match def.kind {
        TileKind::Property(p) => {
            assert_eq!(p.house_cost, 0);
            assert_eq!(p.rent_model, RentModel::GroupScaled);
        }
        other => panic!("expected a property, got {other:?}"),
    }
}

#[test]
fn raw_tiles_missing_fields_are_refused() {
    let unknown = raw("w", "warp").into_def("bad").unwrap_err();
    assert!(matches!(unknown, ModError::InvalidTile { ref tile, ref mod_id, .. } if tile == "w" && mod_id == "bad"));
    assert!(matches!(raw("t", "tax").into_def("m"), Err(ModError::InvalidTile { .. })));
    let half = TileRaw { min_pct: Some(5), ..raw("a", "net_worth_tax") };
    assert!(matches!(half.into_def("m"), Err(ModError::InvalidTile { .. })));
    for missing in 0..4 {
        let mut p = property("p", 60);
        match missing {
            0 => p.house_cost = None,
            1 => p.group = None,
            2 => p.price = None,
            _ => p.rents = None,
        }
        assert!(matches!(p.into_def("m"), Err(ModError::InvalidTile { .. })), "case {missing}");
    }
}

#[test]
fn base_mod_builds_valid_content() {
    let mut reg = RegistryBuilder::new();
    reg.load_data("base", base()).unwrap();
    let content = reg.build().unwrap();
    assert_eq!(content.board.len(), 4);
    assert_eq!(content.chance.len(), 1);
    assert_eq!(content.rules.starting_balance, 1500);
    assert_eq!(content.forecast_gap_turns, 0);
}

#[test]
fn a_later_mod_replaces_in_place_and_layers_rules() {
    let mut reg = RegistryBuilder::new();
    reg.load_data("base", base()).unwrap();
    let mut richer = data(vec![TileRaw { name: "Grand Avenue A".into(), ..property("ave_a", 100) }]);
    richer.rules = vec![("starting_balance".into(), 3000), ("future_unknown_key".into(), 1)];
    reg.load_data("richer", richer).unwrap();
    let content = reg.build().unwrap();
    assert_eq!(content.board.len(), 4, "an override must not append");
    assert_eq!(content.board[1].id, "ave_a");
    assert_eq!(content.board[1].name, "Grand Avenue A");
    assert!(matches!(&content.board[1].kind, TileKind::Property(p) if p.price == 100));
    assert_eq!(content.rules.starting_balance, 3000);
}

#[test]
fn cards_and_events_are_replaced_by_id_and_the_last_gap_wins() {
    let mut reg = RegistryBuilder::new();
    let mut first = base();
    first.events = vec![crash("Market Crash", -50)];
    first.forecast_gap_turns = Some(6);
    reg.load_data("base", first).unwrap();
    let mut second = data(vec![]);
    second.chance = vec![CardDef {
        id: "ch_bonus".into(),
        text: "Pay the bank 50".into(),
        effect: CardEffect::Money { amount: -50 },
    }];
    second.events = vec![crash("Bigger Market Crash", -80)];
    second.forecast_gap_turns = Some(10);
    reg.load_data("harsher", second).unwrap();
    let content = reg.build().unwrap();
    assert_eq!(content.chance.len(), 1);
    assert_eq!(content.chance[0].effect, CardEffect::Money { amount: -50 });
    assert_eq!(content.market_events.len(), 1);
    assert_eq!(content.market_events[0].name, "Bigger Market Crash");
    assert_eq!(content.market_events[0].magnitude_pct, -80);
    assert_eq!(content.forecast_gap_turns, 10);
}

#[test]
fn rules_clamp_and_ignore_unknown_keys() {
    let mut reg = RegistryBuilder::new();
    reg.load_data("base", base()).unwrap();
    reg.set_rule("m", "max_houses_per_property", 900);
    reg.set_rule("m", "go_salary", 250);
    reg.set_rule("m", "go_salary", 300);
    reg.set_rule("m", "jail_fine", 70);
    let content = reg.build().unwrap();
    assert_eq!(content.rules.max_houses_per_property, 255);
    assert_eq!(content.rules.go_salary, 300);
}

#[test]
fn a_bad_tile_stops_the_load_and_bad_content_is_refused() {
    let mut reg = RegistryBuilder::new();
    let err = reg
        .load_data("bad", data(vec![raw("go", "go"), raw("w", "warp")]))
        .unwrap_err();
    assert!(matches!(err, ModError::InvalidTile { ref tile, .. } if tile == "w"));

    let mut reg = RegistryBuilder::new();
    reg.load_data("broken", data(vec![raw("jail", "jail")])).unwrap();
    assert!(matches!(reg.build(), Err(ModError::Content(ContentError::FirstTileNotGo))));
}

#[test]
fn mod_info_is_the_public_part_of_the_manifest() {
    let m = ModManifest {
        author: Some("ana".into()),
        ..manifest("base", Some("0.1.0"))
    };
    let info = ModInfo::of(&m);
    assert_eq!(info.id, "base");
    assert_eq!(info.version, "1.0.0");
    assert_eq!(info.author.as_deref(), Some("ana"));
}
