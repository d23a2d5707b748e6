//! GL object handles and enumerants.
//!
//! Handles are `glow`'s own types. The library never looks inside one: it
//! stores handles, compares them, chooses among them and hands them back.

use vstd::prelude::*;

verus! {

/// Declares `glow::NativeTexture`; nothing is known of a value.
#[verifier::external_type_specification]
#[verifier::external_body]
pub struct ExNativeTexture(glow::NativeTexture);

/// Declares `glow::NativeFramebuffer`; nothing is known of a value.
#[verifier::external_type_specification]
#[verifier::external_body]
pub struct ExNativeFramebuffer(glow::NativeFramebuffer);

/// Declares `glow::NativeProgram`; nothing is known of a value.
#[verifier::external_type_specification]
#[verifier::external_body]
pub struct ExNativeProgram(glow::NativeProgram);

/// Declares `glow::NativeQuery`; nothing is known of a value.
#[verifier::external_type_specification]
#[verifier::external_body]
pub struct ExNativeQuery(glow::NativeQuery);

/// Declares `glow::NativeUniformLocation`; nothing is known of a value.
#[verifier::external_type_specification]
#[verifier::external_body]
pub struct ExNativeUniformLocation(glow::NativeUniformLocation);

/// `R32F`: one 32-bit float channel.
pub const GL_R32F: u32 = 0x822E;

/// `RG32F`: two 32-bit float channels.
pub const GL_RG32F: u32 = 0x8230;

/// `RGBA8`: four 8-bit channels.
pub const GL_RGBA8: u32 = 0x8058;

/// `RGBA16F`: four 16-bit float channels.
pub const GL_RGBA16F: u32 = 0x881A;

/// `RG16F`: two 16-bit float channels.
pub const GL_RG16F: u32 = 0x822F;

/// `RED`: red pixel data.
pub const GL_RED: u32 = 0x1903;

/// `RG`: red-green pixel data.
pub const GL_RG: u32 = 0x8227;

/// `RGBA`: four-channel pixel data.
pub const GL_RGBA: u32 = 0x1908;

/// `FLOAT`: 32-bit float components.
pub const GL_FLOAT: u32 = 0x1406;

/// `HALF_FLOAT`: 16-bit float components.
pub const GL_HALF_FLOAT: u32 = 0x140B;

/// `UNSIGNED_BYTE`: unsigned byte components.
pub const GL_UNSIGNED_BYTE: u32 = 0x1401;

/// `NEAREST`: nearest-texel filtering.
pub const GL_NEAREST: u32 = 0x2600;

/// `LINEAR`: linear filtering.
pub const GL_LINEAR: u32 = 0x2601;

/// `FRAMEBUFFER_COMPLETE`: a framebuffer can be drawn into.
pub const GL_FRAMEBUFFER_COMPLETE: u32 = 0x8CD5;

/// `NO_ERROR`: nothing went wrong.
pub const GL_NO_ERROR: u32 = 0;

/// Reads the constant `glow::R32F`, which is the GL enumerant 0x822E.
#[verifier::external_body]
pub(crate) fn r32f() -> (r: u32)
    ensures
        r == GL_R32F,
{
    glow::R32F
}

/// Reads the constant `glow::RG32F`, which is the GL enumerant 0x8230.
#[verifier::external_body]
pub(crate) fn rg32f() -> (r: u32)
    ensures
        r == GL_RG32F,
{
    glow::RG32F
}

/// Reads the constant `glow::RGBA8`, which is the GL enumerant 0x8058.
#[verifier::external_body]
pub(crate) fn rgba8() -> (r: u32)
    ensures
        r == GL_RGBA8,
{
    glow::RGBA8
}

/// Reads the constant `glow::RGBA16F`, which is the GL enumerant 0x881A.
#[verifier::external_body]
pub(crate) fn rgba16f() -> (r: u32)
    ensures
        r == GL_RGBA16F,
{
    glow::RGBA16F
}

/// Reads the constant `glow::RG16F`, which is the GL enumerant 0x822F.
#[verifier::external_body]
pub(crate) fn rg16f() -> (r: u32)
    ensures
        r == GL_RG16F,
{
    glow::RG16F
}

/// Reads the constant `glow::RED`, which is the GL enumerant 0x1903.
#[verifier::external_body]
pub(crate) fn red() -> (r: u32)
    ensures
        r == GL_RED,
{
    glow::RED
}

/// Reads the constant `glow::RG`, which is the GL enumerant 0x8227.
#[verifier::external_body]
pub(crate) fn rg() -> (r: u32)
    ensures
        r == GL_RG,
{
    glow::RG
}

/// Reads the constant `glow::RGBA`, which is the GL enumerant 0x1908.
#[verifier::external_body]
pub(crate) fn rgba() -> (r: u32)
    ensures
        r == GL_RGBA,
{
    glow::RGBA
}

/// Reads the constant `glow::FLOAT`, which is the GL enumerant 0x1406.
#[verifier::external_body]
pub(crate) fn float() -> (r: u32)
    ensures
        r == GL_FLOAT,
{
    glow::FLOAT
}

/// Reads the constant `glow::HALF_FLOAT`, which is the GL enumerant 0x140B.
#[verifier::external_body]
pub(crate) fn half_float() -> (r: u32)
    ensures
        r == GL_HALF_FLOAT,
{
    glow::HALF_FLOAT
}

/// Reads the constant `glow::UNSIGNED_BYTE`, which is the GL enumerant 0x1401.
#[verifier::external_body]
pub(crate) fn unsigned_byte() -> (r: u32)
    ensures
        r == GL_UNSIGNED_BYTE,
{
    glow::UNSIGNED_BYTE
}

/// Reads the constant `glow::NEAREST`, which is the GL enumerant 0x2600.
#[verifier::external_body]
pub(crate) fn nearest() -> (r: u32)
    ensures
        r == GL_NEAREST,
{
    glow::NEAREST
}

/// Reads the constant `glow::LINEAR`, which is the GL enumerant 0x2601.
#[verifier::external_body]
pub(crate) fn linear() -> (r: u32)
    ensures
        r == GL_LINEAR,
{
    glow::LINEAR
}

/// Reads the constant `glow::FRAMEBUFFER_COMPLETE`, which is the GL enumerant
/// 0x8CD5.
#[verifier::external_body]
pub(crate) fn framebuffer_complete() -> (r: u32)
    ensures
        r == GL_FRAMEBUFFER_COMPLETE,
{
    glow::FRAMEBUFFER_COMPLETE
}

/// Reads the constant `glow::NO_ERROR`, which is zero.
#[verifier::external_body]
pub(crate) fn no_error() -> (r: u32)
    ensures
        r == GL_NO_ERROR,
{
    glow::NO_ERROR
}

/// Compares two handles with the `PartialEq` of `glow::NativeTexture`, which
/// holds exactly when both name the same object.
#[verifier::external_body]
pub(crate) fn same_texture(a: glow::NativeTexture, b: glow::NativeTexture) -> (r: bool)
    ensures
        r == (a == b),
{
    a == b
}

/// Compares two handles with the `PartialEq` of `glow::NativeFramebuffer`,
/// which holds exactly when both name the same object.
#[verifier::external_body]
pub(crate) fn same_framebuffer(a: glow::NativeFramebuffer, b: glow::NativeFramebuffer) -> (r: bool)
    ensures
        r == (a == b),
{
    a == b
}

} // verus!
