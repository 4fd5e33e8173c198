use errornowatcher::fluid_state::FluidState;
use errornowatcher::player::Player;

#[test]
fn player_holds_its_fields() {
    let player = Player {
        display_name: Some("The Watcher".to_string()),
        gamemode: 1,
        latency: 42,
        name: "watcher".to_string(),
        uuid: "069a79f4-44e9-4726-a5be-fca90e38aaf5".to_string(),
    };
    let copy = player.clone();
    assert_eq!(copy, player);
    assert_eq!(copy.display_name.as_deref(), Some("The Watcher"));
    assert_eq!(copy.gamemode, 1);
    assert_eq!(copy.latency, 42);
    assert_eq!(copy.name, "watcher");
    assert_eq!(copy.uuid, "069a79f4-44e9-4726-a5be-fca90e38aaf5");
}

#[test]
fn fluid_state_holds_its_fields() {
    let water = FluidState { kind: 1, amount: 8, falling: false };
    let falling = FluidState { falling: true, ..water };
    assert_eq!(water, water.clone());
    assert_ne!(water, falling);
    assert_eq!((falling.kind, falling.amount, falling.falling), (1, 8, true));
}
