use sdit_core::pty::PtySize;
use sdit_core::render::validate_background_image_params;
use sdit_core::session::sidebar::SidebarState;

#[test]
fn test_auto_update_single_session() {
    let mut state = SidebarState::new();
    state.auto_update(1);
    assert!(!state.visible);
}

#[test]
fn test_auto_update_multiple_sessions() {
    let mut state = SidebarState::new();
    state.auto_update(2);
    assert!(state.visible);
}

#[test]
fn test_auto_update_back_to_single() {
    let mut state = SidebarState::new();
    state.auto_update(3);
    assert!(state.visible);
    state.auto_update(1);
    assert!(!state.visible);
}

#[test]
fn test_manual_toggle() {
    let mut state = SidebarState::new();
    state.auto_update(2);
    assert!(state.visible);
    state.toggle();
    assert!(!state.visible);
    // 手動オーバーライド中は auto_update で上書きされない
    state.auto_update(2);
    assert!(!state.visible);
}

#[test]
fn test_manual_override_cleared_on_single() {
    let mut state = SidebarState::new();
    state.auto_update(2);
    state.toggle(); // 手動で非表示に
    assert!(!state.visible);
    state.auto_update(1); // 1セッション → 手動オーバーライド解除
    state.auto_update(2); // 再び2セッション → 自動表示
    assert!(state.visible);
}

#[test]
fn test_pty_size_default() {
    let size = PtySize::default();
    assert_eq!(size.rows, 24);
    assert_eq!(size.cols, 80);
    assert_eq!(size.pixel_width, 0);
    assert_eq!(size.pixel_height, 0);
}

#[test]
fn test_pty_size_new() {
    let size = PtySize::new(40, 120);
    assert_eq!(size.rows, 40);
    assert_eq!(size.cols, 120);
}

#[test]
fn validate_bg_image_zero_width_returns_none() {
    let data = vec![0u8; 4]; // 1x1 の RGBA データだが width=0 に設定
    assert!(validate_background_image_params(&data, 0, 1).is_none(), "width=0 は None を返す");
}

#[test]
fn validate_bg_image_zero_height_returns_none() {
    let data = vec![0u8; 4];
    assert!(validate_background_image_params(&data, 1, 0).is_none(), "height=0 は None を返す");
}

#[test]
fn validate_bg_image_too_large_dimension_returns_none() {
    // 4097x1 は MAX_DIM(4096) 超
    let data = vec![0u8; 4097 * 1 * 4];
    assert!(
        validate_background_image_params(&data, 4097, 1).is_none(),
        "width=4097 は None を返す"
    );
}

#[test]
fn validate_bg_image_max_allowed_dimension() {
    // 4096x1 は許容範囲内
    let data = vec![0u8; 4096 * 1 * 4];
    assert!(
        validate_background_image_params(&data, 4096, 1).is_some(),
        "width=4096 は許容される"
    );
}

#[test]
fn validate_bg_image_data_length_mismatch_returns_none() {
    // 2x2 には 16 bytes 必要だが、8 bytes しか渡さない
    let data = vec![0u8; 8];
    assert!(
        validate_background_image_params(&data, 2, 2).is_none(),
        "データ長不一致は None を返す"
    );
}

#[test]
fn validate_bg_image_valid_params() {
    // 正常な 2x2 RGBA8 画像
    let data = vec![0u8; 2 * 2 * 4];
    let result = validate_background_image_params(&data, 2, 2);
    assert!(result.is_some(), "正常パラメータは Some を返す");
    assert_eq!(result.unwrap(), 8, "bytes_per_row = width * 4 = 8");
}

#[test]
fn validate_bg_image_1x1() {
    // 1x1 の最小ケース
    let data = vec![255u8, 0, 0, 255]; // 赤い 1 ピクセル
    let result = validate_background_image_params(&data, 1, 1);
    assert!(result.is_some(), "1x1 は許容される");
    assert_eq!(result.unwrap(), 4, "bytes_per_row = 1 * 4 = 4");
}
