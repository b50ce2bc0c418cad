use dungeon_core::dice::{dice_from_draws, pick_roll, roll, Advantage, DiceRollResult, Die};
use dungeon_core::stats::{get_stat_bonus, Health, HitDie, PawnStats};
use dungeon_core::turn_system::{turn_over, GameState, GameStateID};
use dungeon_core::world::{ResourceMaterial, TileState};

#[test]
fn roll_dice() {
    let count = 1;
    let die = Die::D20(0);
    let bonus = 5;
    let advantage = Advantage::Normal;

    let result = roll(count, die, bonus, advantage);

    assert!((result.1 <= count as i32 * die.sides() as i32 + 5));
}

#[test]
fn roll_totals_add_up() {
    let r = roll(10, Die::D6(0), -3, Advantage::Advantage);
    assert_eq!(r.rolls().len(), 10);
    let sum: i32 = r.rolls().iter().map(|d| d.value() as i32).sum();
    assert_eq!(r.total(), sum - 3);
    assert!(r.rolls().iter().all(|d| d.sides() == 6 && d.value() < 6));
}

#[test]
fn pick_roll_by_advantage() {
    let low = || DiceRollResult(vec![Die::D4(1)], 1);
    let high = || DiceRollResult(vec![Die::D4(3)], 3);
    assert_eq!(pick_roll(low(), high(), Advantage::Advantage).1, 3);
    assert_eq!(pick_roll(low(), high(), Advantage::Dissadvantage).1, 1);
    assert_eq!(pick_roll(high(), low(), Advantage::Normal).1, 3);
}

#[test]
fn dice_faces() {
    let d = Die::from_sides(12, 7);
    assert_eq!(d.sides(), 12);
    assert_eq!(d.value(), 7);
    assert_eq!(d.label(), "d12");
    assert_eq!(Die::D100(0).label(), "d100");
    assert_eq!(Die::from_sides(100, 0).sides(), 100);
}

#[test]
fn turn_clock_fires_once_per_pass() {
    let mut clock = GameState::new();
    assert!(!clock.turn_system(399));
    assert!(clock.turn_system(1));
    assert_eq!(clock.elapsed_ms, 0);
    assert!(clock.turn_system(1000));
    assert_eq!(clock.elapsed_ms, 200);
    clock.state = GameStateID::Pause;
    assert!(!clock.turn_system(5000));
    assert_eq!(clock.elapsed_ms, 200);
}

#[test]
fn turn_signals_collapse() {
    assert!(!turn_over(0));
    assert!(turn_over(1));
    assert!(turn_over(3));
}

#[test]
fn stat_bonus_and_health() {
    assert_eq!(get_stat_bonus(10), 2);
    assert_eq!(get_stat_bonus(3), -5);
    let stats = PawnStats::default();
    let h = Health::setup(HitDie::D6, &stats);
    assert_eq!(h.maximum, 6);
    assert_eq!(h.current, 6);
    assert_eq!(HitDie::D12.value(), 12);
}

#[test]
fn tile_glyphs_and_materials() {
    assert_eq!(TileState::Empty.glyph(), '.' as usize);
    assert_eq!(TileState::Solid.glyph(), '#' as usize);
    assert_eq!(ResourceMaterial::Crystal.identifier(), "Cr");
    assert_eq!(ResourceMaterial::Coal.range(), (5, 9));
    assert_eq!(ResourceMaterial::Iron.index(), 3);
}

#[test]
fn dice_from_fixed_draws() {
    let r = dice_from_draws(&vec![3, 0, 5], Die::D6(0), 2);
    assert_eq!(r.total(), 10);
    let values: Vec<u32> = r.rolls().iter().map(|d| d.value()).collect();
    assert_eq!(values, vec![3, 0, 5]);
    assert!(r.rolls().iter().all(|d| d.sides() == 6));
    assert_eq!(dice_from_draws(&vec![], Die::D20(0), -4).total(), -4);
}
