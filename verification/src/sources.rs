//! What has to be compiled: program sources of the passes, and their views.

use vstd::prelude::*;

use crate::passes;
#[allow(unused_imports)]
use crate::passes::{DebugViewSpec, Pass, ShaderSet, Variant, ViewModel};
use crate::text;

verus! {

/// Program sources of one pass.
#[derive(Debug)]
pub struct PassSources {
    /// Compute source with its prelude.
    pub compute: Option<String>,
    /// Vertex and fragment source.
    pub fragment: Option<(String, String)>,
}

/// What a [`PassSources`] holds.
#[verifier::ext_equal]
pub struct SourcesModel {
    pub compute: Option<Seq<char>>,
    pub fragment: Option<(Seq<char>, Seq<char>)>,
}

impl View for PassSources {
    type V = SourcesModel;

    open spec fn view(&self) -> SourcesModel {
        SourcesModel {
            compute: match self.compute {
                Some(s) => Some(s@),
                None => None,
            },
            fragment: match self.fragment {
                Some(p) => Some((p.0@, p.1@)),
                None => None,
            },
        }
    }
}

/// The programs to compile for a pass: the compute body behind the prelude,
/// where the pass has a compute variant and there is a prelude, and the
/// fragment pair, where it has a fragment variant.
pub open spec fn wanted<P: Pass>(
    pass: P,
    shaders: ShaderSet,
    prelude: Option<Seq<char>>,
) -> SourcesModel {
    SourcesModel {
        compute: match (prelude, pass.source_text(Variant::Compute, shaders)) {
            (Some(pre), Some(text)) => if pass.offered().compute {
                Some(pre + text.1)
            } else {
                None
            },
            _ => None,
        },
        fragment: if pass.offered().fragment {
            pass.source_text(Variant::Fragment, shaders)
        } else {
            None
        },
    }
}

/// The sources of one pass.
pub fn sources_of<P: Pass>(pass: &P, shaders: &ShaderSet, prelude: Option<&str>) -> (r: PassSources)
    ensures
        r@ == wanted(
            *pass,
            *shaders,
            match prelude {
                Some(p) => Some(p@),
                None => None,
            },
        ),
{
    let variants = pass.variants();
    let compute = if variants.compute {
        match (prelude, pass.sources(Variant::Compute, shaders)) {
            (Some(pre), Some((_, body))) => Some(text::concat2(pre, body)),
            _ => None,
        }
    } else {
        None
    };
    let fragment = if variants.fragment {
        match pass.sources(Variant::Fragment, shaders) {
            Some((vs, fs)) => Some((text::copy(vs), text::copy(fs))),
            None => None,
        }
    } else {
        None
    };
    PassSources { compute, fragment }
}

/// The sources of all passes, in order.
pub fn pass_sources<P: Pass>(
    list: &Vec<P>,
    shaders: &ShaderSet,
    prelude: Option<&str>,
) -> (r: Vec<PassSources>)
    ensures
        r@.len() == list@.len(),
        forall|i: int|
            0 <= i < list@.len() ==> (#[trigger] r@[i])@ == wanted(
                list@[i],
                *shaders,
                match prelude {
                    Some(p) => Some(p@),
                    None => None,
                },
            ),
{
    let mut out: Vec<PassSources> = Vec::new();
    for i in 0..list.len()
        invariant
            out@.len() == i,
            forall|k: int|
                0 <= k < i ==> (#[trigger] out@[k])@ == wanted(
                    list@[k],
                    *shaders,
                    match prelude {
                        Some(p) => Some(p@),
                        None => None,
                    },
                ),
    {
        out.push(sources_of(&list[i], shaders, prelude));
    }
    out
}

/// The views that the passes offer. Those of the last pass come first, so that
/// the default pipeline lists motion, luma and clip in the order in which they
/// are cycled through.
pub open spec fn all_views<P: Pass>(list: Seq<P>) -> Seq<ViewModel>
    decreases list.len(),
{
    if list.len() == 0 {
        Seq::empty()
    } else {
        list.last().offered_views() + all_views(list.drop_last())
    }
}

/// Collects the views that the passes offer; see [`all_views`].
pub fn debug_views<P: Pass>(list: &Vec<P>) -> (r: Vec<DebugViewSpec>)
    ensures
        passes::view_models(r@) == all_views(list@),
{
    let mut out: Vec<DebugViewSpec> = Vec::new();
    let mut i: usize = list.len();
    assert(list@.take(list@.len() as int) =~= list@);
    assert(passes::view_models(out@) + all_views(list@) =~= all_views(list@));
    while i > 0
        invariant
            i <= list@.len(),
            all_views(list@) == passes::view_models(out@) + all_views(list@.take(i as int)),
        decreases i,
    {
        let mut more = list[i - 1].debug_views();
        let ghost before = out@;
        let ghost added = more@;
        out.append(&mut more);
        proof {
            let t = list@.take(i as int);
            assert(t.drop_last() =~= list@.take(i - 1));
            assert(t.last() == list@[i - 1]);
            assert(passes::view_models(out@) =~= passes::view_models(before) + passes::view_models(
                added,
            ));
            assert(passes::view_models(before) + (passes::view_models(added) + all_views(
                list@.take(i - 1),
            )) =~= passes::view_models(out@) + all_views(list@.take(i - 1)));
        }
        i = i - 1;
    }
    assert(passes::view_models(out@) + all_views(list@.take(0)) =~= passes::view_models(out@));
    out
}

/// A variant that a pass does not implement.
#[derive(Debug, Clone, Copy)]
pub struct MissingVariant {
    pub pass: &'static str,
    pub variant: Variant,
}

/// What a list of missing variants names.
pub open spec fn missing_models(list: Seq<MissingVariant>) -> Seq<(Seq<char>, Variant)> {
    list.map_values(|v: MissingVariant| (v.pass@, v.variant))
}

/// The variants that a pass does not implement.
pub open spec fn missing_of<P: Pass>(pass: P) -> Seq<(Seq<char>, Variant)> {
    (if pass.offered().compute {
        Seq::<(Seq<char>, Variant)>::empty()
    } else {
        seq![(pass.label(), Variant::Compute)]
    }) + (if pass.offered().fragment {
        Seq::<(Seq<char>, Variant)>::empty()
    } else {
        seq![(pass.label(), Variant::Fragment)]
    })
}

/// The variants that the passes do not implement, in pass order.
pub open spec fn all_missing<P: Pass>(list: Seq<P>) -> Seq<(Seq<char>, Variant)>
    decreases list.len(),
{
    if list.len() == 0 {
        Seq::empty()
    } else {
        all_missing(list.drop_last()) + missing_of(list.last())
    }
}

/// Reports the variants that the passes do not implement, in pass order.
pub fn missing_variants<P: Pass>(list: &Vec<P>) -> (r: Vec<MissingVariant>)
    ensures
        missing_models(r@) == all_missing(list@),
{
    let mut out: Vec<MissingVariant> = Vec::new();
    assert(missing_models(out@) =~= all_missing(list@.take(0)));
    for i in 0..list.len()
        invariant
            missing_models(out@) == all_missing(list@.take(i as int)),
    {
        let ghost before = missing_models(out@);
        proof {
            let t = list@.take(i + 1);
            assert(t.drop_last() =~= list@.take(i as int));
            assert(t.last() == list@[i as int]);
        }
        let variants = list[i].variants();
        let pass = list[i].name();
        if !variants.compute {
            out.push(MissingVariant { pass, variant: Variant::Compute });
        }
        if !variants.fragment {
            out.push(MissingVariant { pass, variant: Variant::Fragment });
        }
        assert(missing_models(out@) =~= before + missing_of(list@[i as int]));
    }
    assert(list@.take(list@.len() as int) =~= list@);
    out
}

} // verus!
