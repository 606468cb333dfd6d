//! What the window and the GPU are told, and what their events mean.

use crate::object::{Key, Touch};
use vstd::prelude::*;

verus! {

#[verifier::external_type_specification]
pub struct ExShaderMeta(::miniquad::ShaderMeta);

#[verifier::external_type_specification]
pub struct ExUniformBlockLayout(::miniquad::UniformBlockLayout);

#[verifier::external_type_specification]
pub struct ExUniformDesc(::miniquad::UniformDesc);

#[verifier::external_type_specification]
pub struct ExUniformType(::miniquad::UniformType);

#[verifier::external_type_specification]
pub struct ExMouseButton(::miniquad::MouseButton);

#[verifier::external_type_specification]
pub struct ExTouchPhase(::miniquad::TouchPhase);

#[verifier::external_type_specification]
pub struct ExConf(::miniquad::conf::Conf);

#[verifier::external_type_specification]
#[verifier::external_body]
pub struct ExIcon(::miniquad::conf::Icon);

#[verifier::external_type_specification]
#[verifier::external_body]
pub struct ExPlatform(::miniquad::conf::Platform);

/// miniquad's `UniformDesc::new`: a uniform of the given name and type that is no
/// array, which miniquad writes as an array count of 1.
pub assume_specification[ ::miniquad::UniformDesc::new ](
    name: &str,
    uniform_type: ::miniquad::UniformType,
) -> (desc: ::miniquad::UniformDesc)
    ensures
        desc.name@ == name@,
        desc.uniform_type == uniform_type,
        desc.array_count == 1,
;

/// miniquad's `Default` for `Conf`: the configuration that miniquad starts from. Nothing
/// is claimed of what it holds.
#[verifier::external_body]
fn default_conf() -> (conf: ::miniquad::conf::Conf) {
    ::miniquad::conf::Conf::default()
}

/// What the shaders take besides the vertices: the texture `tex`, and the projection
/// matrix `mvp`.
pub fn meta() -> (m: ::miniquad::ShaderMeta)
    ensures
        m.images@.len() == 1,
        m.images@[0]@ == "tex"@,
        m.uniforms.uniforms@.len() == 1,
        m.uniforms.uniforms@[0].name@ == "mvp"@,
        m.uniforms.uniforms@[0].uniform_type is Mat4,
        m.uniforms.uniforms@[0].array_count == 1,
{
    let mut images: Vec<String> = Vec::new();
    images.push("tex".to_owned());
    let mut uniforms: Vec<::miniquad::UniformDesc> = Vec::new();
    uniforms.push(::miniquad::UniformDesc::new("mvp", ::miniquad::UniformType::Mat4));
    ::miniquad::ShaderMeta { uniforms: ::miniquad::UniformBlockLayout { uniforms }, images }
}

/// The number of anti-aliasing samples for a kind of device: 4 on a desktop (`0`), 2 on
/// a phone or tablet (`1`), 1 anywhere else.
pub open spec fn samples(device: u8) -> i32 {
    if device == 0 {
        4
    } else if device == 1 {
        2
    } else {
        1
    }
}

/// The configuration of the window: miniquad's own, with title, size, the three
/// switches and the sample count set.
pub fn window_conf(
    name: &str,
    width: i32,
    height: i32,
    high_dpi: bool,
    fullscreen: bool,
    resizable: bool,
    device: u8,
) -> (conf: ::miniquad::conf::Conf)
    ensures
        conf.window_title@ == name@,
        conf.window_width == width,
        conf.window_height == height,
        conf.high_dpi == high_dpi,
        conf.fullscreen == fullscreen,
        conf.window_resizable == resizable,
        conf.sample_count == samples(device),
{
    let mut conf = default_conf();
    conf.window_title = name.to_owned();
    conf.window_width = width;
    conf.window_height = height;
    conf.high_dpi = high_dpi;
    conf.fullscreen = fullscreen;
    conf.window_resizable = resizable;
    conf.sample_count = if device == 0 {
        4
    } else if device == 1 {
        2
    } else {
        1
    };
    conf
}

/// The pointer that a mouse button counts as: 0 for the left button, 1 for the right
/// one, 2 for the middle one, 3 for any other.
pub fn button_id(button: ::miniquad::MouseButton) -> (id: u64)
    ensures
        id == match button {
            ::miniquad::MouseButton::Left => 0u64,
            ::miniquad::MouseButton::Right => 1u64,
            ::miniquad::MouseButton::Middle => 2u64,
            ::miniquad::MouseButton::Unknown => 3u64,
        },
{
    match button {
        ::miniquad::MouseButton::Left => 0,
        ::miniquad::MouseButton::Right => 1,
        ::miniquad::MouseButton::Middle => 2,
        ::miniquad::MouseButton::Unknown => 3,
    }
}

/// The phase of a pointer event that a phase of a touch stands for: a touch that
/// starts presses, one that moves moves, one that ends or is cancelled releases.
pub fn touch_phase(phase: ::miniquad::TouchPhase) -> (touch: Touch)
    ensures
        touch == match phase {
            ::miniquad::TouchPhase::Started => Touch::Press,
            ::miniquad::TouchPhase::Moved => Touch::Move,
            ::miniquad::TouchPhase::Ended => Touch::Relese,
            ::miniquad::TouchPhase::Cancelled => Touch::Relese,
        },
{
    match phase {
        ::miniquad::TouchPhase::Started => Touch::Press,
        ::miniquad::TouchPhase::Moved => Touch::Move,
        ::miniquad::TouchPhase::Ended => Touch::Relese,
        ::miniquad::TouchPhase::Cancelled => Touch::Relese,
    }
}

/// What a typed character means for the tree: a press of that character, unless the
/// character comes from a key that is held down and repeats.
pub fn char_event(character: char, repeat: bool) -> (r: Option<(Key, Touch)>)
    ensures
        repeat ==> r is None,
        !repeat ==> r == Some((Key::Char(character), Touch::Press)),
{
    if repeat {
        None
    } else {
        Some((Key::Char(character), Touch::Press))
    }
}

/// What a key going down means for the tree: a press of that key, unless the key is
/// held down and repeats.
pub fn key_down_event(keycode: ::miniquad::KeyCode, repeat: bool) -> (r: Option<(Key, Touch)>)
    ensures
        repeat ==> r is None,
        !repeat ==> r == Some((Key::Code(keycode), Touch::Press)),
{
    if repeat {
        None
    } else {
        Some((Key::Code(keycode), Touch::Press))
    }
}

/// What a key going up means for the tree: a release of that key.
pub fn key_up_event(keycode: ::miniquad::KeyCode) -> (r: (Key, Touch))
    ensures
        r == (Key::Code(keycode), Touch::Relese),
{
    (Key::Code(keycode), Touch::Relese)
}

} // verus!
