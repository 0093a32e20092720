use j2me_kit::device::HandsetKey;
use j2me_kit::device_nokia::{
    game_action, input_fragment, key_code, DOWN, FIRE, LEFT, RIGHT, SOFT_LEFT, UP,
};

#[test]
fn implementation_and_fragment_agree() {
    let fragment = input_fragment();
    for key in [HandsetKey::Up, HandsetKey::Fire, HandsetKey::Digit(5)] {
        assert_eq!(fragment.key_code(key), key_code(key));
    }
    for code in [UP, DOWN, LEFT, RIGHT, FIRE, 50, 52, 53, 54, 56, SOFT_LEFT] {
        assert_eq!(fragment.game_action(code), game_action(code));
    }
}
