//! A context and its configuration.
//!
//! The context object itself lives in the native core. This type keeps what
//! the wrapper knows of it, and decides what a reply of the core means.

use vstd::prelude::*;

use crate::config::IgsrConfig;

verus! {

/// The configuration of a live context.
#[derive(Debug)]
pub struct IgsrContext {
    config: IgsrConfig,
}

/// The configuration once the core has replied to a resize.
pub open spec fn answered(
    c: IgsrConfig,
    render: (u32, u32),
    display: (u32, u32),
    reply: i32,
) -> IgsrConfig {
    if reply == 0 {
        IgsrConfig {
            render_w: render.0,
            render_h: render.1,
            display_w: display.0,
            display_h: display.1,
            ..c
        }
    } else {
        c
    }
}

impl IgsrContext {
    /// The configuration in force.
    pub closed spec fn conf(&self) -> IgsrConfig {
        self.config
    }

    /// A context for `config`, given whether the core created one.
    pub fn new(config: IgsrConfig, created: bool) -> (r: Result<Self, &'static str>)
        ensures
            created ==> r is Ok && r->Ok_0.conf() == config,
            !created ==> r is Err && r->Err_0@ == "igsr_create failed: invalid sizes?"@,
    {
        if created {
            Ok(IgsrContext { config })
        } else {
            Err("igsr_create failed: invalid sizes?")
        }
    }

    pub fn config(&self) -> (r: &IgsrConfig)
        ensures
            *r == self.conf(),
    {
        &self.config
    }

    /// Takes over new sizes, given the core's reply to the resize. A reply
    /// other than zero is a failure and leaves the sizes as they were.
    pub fn resize(
        &mut self,
        render_w: u32,
        render_h: u32,
        display_w: u32,
        display_h: u32,
        reply: i32,
    ) -> (r: Result<(), &'static str>)
        ensures
            final(self).conf() == answered(
                old(self).conf(),
                (render_w, render_h),
                (display_w, display_h),
                reply,
            ),
            r is Ok == (reply == 0),
            reply == 0 ==> r is Ok && final(self).conf() == (IgsrConfig {
                render_w,
                render_h,
                display_w,
                display_h,
                ..old(self).conf()
            }),
            reply != 0 ==> r is Err && r->Err_0@ == "igsr_resize failed"@ && final(self).conf()
                == old(self).conf(),
    {
        if reply == 0 {
            self.config.render_w = render_w;
            self.config.render_h = render_h;
            self.config.display_w = display_w;
            self.config.display_h = display_h;
            Ok(())
        } else {
            Err("igsr_resize failed")
        }
    }

    /// What a context says of the call that it does not offer yet.
    pub fn upscale_stub(&self) -> (r: &'static str)
        ensures
            r@ == "upscale() not yet implemented (stages 3-4)"@,
    {
        "upscale() not yet implemented (stages 3-4)"
    }
}

} // verus!
