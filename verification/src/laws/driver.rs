//! What the version and the extensions of a driver lead to.

use vstd::prelude::*;

use crate::backend::gl;
#[allow(unused_imports)]
use crate::backend::GpuBackend;
#[allow(unused_imports)]
use crate::startup::Capabilities;
#[allow(unused_imports)]
use crate::text::Separator;
use crate::{startup, text};

verus! {

/// A version number as drivers write it, with whatever follows it.
pub open spec fn version_string(major: u32, minor: u32, rest: Seq<char>) -> Seq<char> {
    text::decimal(major as nat) + "."@ + text::decimal(minor as nat) + rest
}

/// What follows a version number: nothing, or something that begins with no
/// digit and ends in no whitespace.
pub open spec fn follows_a_number(rest: Seq<char>) -> bool {
    rest.len() > 0 ==> !text::is_digit(rest[0]) && !text::is_space(rest.last())
}

proof fn lemma_field(n: u32, rest: Seq<char>)
    requires
        rest.len() > 0 ==> !text::is_digit(rest[0]),
    ensures
        ({
            let d = text::decimal(n as nat);
            let s = d + rest;
            &&& text::field_len(s, Separator::NonDigit) == d.len()
            &&& s.take(d.len() as int) == d
            &&& text::parse_u32(d) == Some(n)
            &&& rest.len() > 0 ==> text::numbers(s, Separator::NonDigit) == seq![n]
                + text::numbers(rest.skip(1), Separator::NonDigit)
            &&& rest.len() == 0 ==> text::numbers(s, Separator::NonDigit) == seq![n]
        }),
{
    let d = text::decimal(n as nat);
    let s = d + rest;
    text::decimal_reads_back(n as nat);
    assert forall|i: int| 0 <= i < d.len() implies !text::separates(
        Separator::NonDigit,
        #[trigger] s[i],
    ) by {
        assert(s[i] == d[i]);
    }
    text::lemma_field_len_is(s, Separator::NonDigit, d.len() as int);
    assert(s.take(d.len() as int) =~= d);
    if rest.len() > 0 {
        assert(s[d.len() as int] == rest[0]);
        assert(s.skip((d.len() + 1) as int) =~= rest.skip(1));
    }
}

/// The first two numbers of a version string.
proof fn lemma_numbers(major: u32, minor: u32, rest: Seq<char>)
    requires
        rest.len() > 0 ==> !text::is_digit(rest[0]),
    ensures
        ({
            let ns = text::numbers(version_string(major, minor, rest), Separator::NonDigit);
            ns.len() >= 2 && ns[0] == major && ns[1] == minor
        }),
        text::leading_version(version_string(major, minor, rest)) == Some((major, minor)),
{
    reveal_strlit(".");
    let tail = text::decimal(minor as nat) + rest;
    let dotted = "."@ + tail;
    let v = version_string(major, minor, rest);
    assert(v =~= text::decimal(major as nat) + dotted);
    assert(dotted[0] == '.');
    lemma_field(major, dotted);
    assert(dotted.skip(1) =~= tail);
    lemma_field(minor, rest);
    let k = text::decimal(major as nat).len() as int;
    assert(v.skip(k + 1) =~= tail);
    assert(v[k] == '.');
}

/// Nothing is trimmed off a string that neither begins nor ends in whitespace.
proof fn lemma_untrimmed(s: Seq<char>)
    requires
        s.len() > 0,
        !text::is_space(s[0]),
        !text::is_space(s.last()),
    ensures
        text::trim(s) == s,
{
    text::lemma_leading_space(s, 0);
    assert(s.skip(0) =~= s);
    text::lemma_trailing_space(s, 0);
    assert(s.take(s.len() as int) =~= s);
}

proof fn lemma_version_ends(major: u32, minor: u32, rest: Seq<char>)
    requires
        follows_a_number(rest),
    ensures
        ({
            let v = version_string(major, minor, rest);
            &&& v.len() > 0
            &&& text::is_digit(v[0])
            &&& !text::is_space(v.last())
            &&& text::trim(v) == v
        }),
{
    reveal_strlit(".");
    let (a, b) = (text::decimal(major as nat), text::decimal(minor as nat));
    text::decimal_reads_back(major as nat);
    text::decimal_reads_back(minor as nat);
    let v = version_string(major, minor, rest);
    assert(v[0] == a[0]);
    assert(text::is_digit(a[0]));
    if rest.len() > 0 {
        assert(v.last() == rest.last());
    } else {
        assert(v.last() == b[b.len() - 1]);
        assert(text::is_digit(b[b.len() - 1]));
    }
    lemma_untrimmed(v);
}

/// A desktop version string gives its version number back, and implies compute
/// from 4.3 on, whatever the driver adds to it.
pub proof fn desktop_versions(major: u32, minor: u32, rest: Seq<char>)
    requires
        follows_a_number(rest),
    ensures
        ({
            let v = version_string(major, minor, rest);
            &&& text::nth_or(gl::version_numbers(v), 0, 0) == major
            &&& text::nth_or(gl::version_numbers(v), 1, 0) == minor
            &&& gl::version_of(v) == (major, minor)
            &&& gl::version_has_compute(v) == (major > 4 || (major == 4 && minor >= 3))
        }),
{
    let v = version_string(major, minor, rest);
    lemma_version_ends(major, minor, rest);
    lemma_numbers(major, minor, rest);
    reveal_strlit("OpenGL ES");
    if gl::is_es(v) {
        assert(v.take("OpenGL ES"@.len() as int)[0] == 'O');
    }
}

/// The parts of an embedded version string.
proof fn lemma_embedded_shape(major: u32, minor: u32, rest: Seq<char>)
    requires
        follows_a_number(rest),
    ensures
        ({
            let w = version_string(major, minor, rest);
            let v = "OpenGL ES "@ + w;
            &&& text::trim(v) == v
            &&& gl::is_es(v)
            &&& gl::es_rest(v) == seq![' '] + w
        }),
{
    reveal_strlit("OpenGL ES ");
    reveal_strlit("OpenGL ES");
    let w = version_string(major, minor, rest);
    let v = "OpenGL ES "@ + w;
    lemma_version_ends(major, minor, rest);
    assert(v.last() == w.last());
    lemma_untrimmed(v);
    assert(v.take(9) =~= "OpenGL ES"@);
    assert(v.skip(9) =~= seq![' '] + w);
}

/// The first word of an embedded version string behind its prefix.
proof fn lemma_embedded_word(major: u32, minor: u32, rest: Seq<char>) -> (cut: int)
    ensures
        0 <= cut <= rest.len(),
        rest.len() > 0 && text::is_space(rest[0]) ==> cut == 0,
        text::first_word(seq![' '] + version_string(major, minor, rest)) == version_string(
            major,
            minor,
            rest.take(cut),
        ),
{
    reveal_strlit(".");
    let (a, b) = (text::decimal(major as nat), text::decimal(minor as nat));
    text::decimal_reads_back(major as nat);
    text::decimal_reads_back(minor as nat);
    let w = version_string(major, minor, rest);
    let es = seq![' '] + w;
    let cut = lemma_word_end(rest, 0);
    let n = (a.len() + 1 + b.len()) as int;
    assert forall|i: int| 0 <= i < n + cut implies !text::is_space(#[trigger] w[i]) by {
        if i < a.len() {
            assert(w[i] == a[i]);
            assert(text::is_digit(a[i]));
        } else if i == a.len() {
            assert(w[i] == '.');
        } else if i < n {
            assert(w[i] == b[i - a.len() - 1]);
            assert(text::is_digit(b[i - a.len() - 1]));
        } else {
            assert(w[i] == rest[i - n]);
        }
    }
    if cut < rest.len() {
        assert(w[n + cut] == rest[cut]);
    }
    assert(!text::is_space(w[0]));
    assert(es[1] == w[0]);
    text::lemma_leading_space(es, 1);
    assert(es.skip(1) =~= w);
    text::lemma_word_len(w, n + cut);
    assert(w.take(n + cut) =~= version_string(major, minor, rest.take(cut)));
    cut
}

/// A version string that begins with 3.1 is of a version from 3.1 on.
proof fn lemma_embedded_prefix(major: u32, minor: u32, rest: Seq<char>)
    requires
        text::starts_with("OpenGL ES "@ + version_string(major, minor, rest), "OpenGL ES 3.1"@),
    ensures
        major == 3,
        minor >= 1,
{
    reveal_strlit("OpenGL ES ");
    reveal_strlit("OpenGL ES 3.1");
    reveal_strlit(".");
    let (a, b) = (text::decimal(major as nat), text::decimal(minor as nat));
    text::decimal_reads_back(major as nat);
    text::decimal_reads_back(minor as nat);
    let w = version_string(major, minor, rest);
    let v = "OpenGL ES "@ + w;
    let p = v.take(13);
    assert(p == "OpenGL ES 3.1"@);
    assert(p[10] == '3' && p[11] == '.' && p[12] == '1');
    assert(p[10] == w[0] && p[11] == w[1] && p[12] == w[2]);
    if a.len() > 1 {
        assert(w[1] == a[1]);
        assert(text::is_digit(a[1]));
    }
    assert(w[0] == a[0]);
    assert(a =~= seq!['3']);
    assert(text::digits_value(seq!['3']) == 3) by {
        reveal_with_fuel(text::digits_value, 2);
        assert(seq!['3'].drop_last().len() == 0);
    }
    assert(b[0] == w[2]);
    if minor == 0 {
        assert(b =~= seq![text::digit_char(0)]);
    }
}

/// An embedded version string gives its version number back, and implies
/// compute from 3.1 on, whatever the driver adds to it.
pub proof fn embedded_versions(major: u32, minor: u32, rest: Seq<char>)
    requires
        follows_a_number(rest),
    ensures
        ({
            let v = "OpenGL ES "@ + version_string(major, minor, rest);
            &&& text::nth_or(gl::version_numbers(v), 0, 0) == major
            &&& text::nth_or(gl::version_numbers(v), 1, 0) == minor
            &&& gl::version_of(v) == (major, minor)
            &&& major > 3 || (major == 3 && minor >= 1) ==> gl::version_has_compute(v)
            &&& (rest.len() == 0 || text::is_space(rest[0])) && gl::version_has_compute(v)
                ==> major > 3 || (major == 3 && minor >= 1)
        }),
{
    let w = version_string(major, minor, rest);
    let v = "OpenGL ES "@ + w;
    lemma_embedded_shape(major, minor, rest);
    let es = gl::es_rest(v);
    text::lemma_field_len_is(es, Separator::NonDigit, 0);
    assert(es.take(0).len() == 0);
    assert(es.skip(1) =~= w);
    lemma_numbers(major, minor, rest);
    assert(gl::version_numbers(v) =~= text::numbers(w, Separator::NonDigit));
    let cut = lemma_embedded_word(major, minor, rest);
    let more = rest.take(cut);
    if cut > 0 {
        assert(more[0] == rest[0]);
    }
    lemma_numbers(major, minor, more);
    if rest.len() == 0 || text::is_space(rest[0]) {
        assert(version_string(major, minor, more) =~= text::decimal(major as nat) + "."@
            + text::decimal(minor as nat));
        lemma_dotted(major, minor);
        if text::starts_with(v, "OpenGL ES 3.1"@) {
            lemma_embedded_prefix(major, minor, rest);
        }
    }
}

/// Where the first word of `s` ends, from `k` on.
proof fn lemma_word_end(s: Seq<char>, k: int) -> (r: int)
    requires
        0 <= k <= s.len(),
        forall|i: int| 0 <= i < k ==> !text::is_space(#[trigger] s[i]),
    ensures
        k <= r <= s.len(),
        forall|i: int| 0 <= i < r ==> !text::is_space(#[trigger] s[i]),
        r < s.len() ==> text::is_space(s[r]),
    decreases s.len() - k,
{
    if k == s.len() || text::is_space(s[k]) {
        k
    } else {
        lemma_word_end(s, k + 1)
    }
}

/// The fields of a bare version number, parted by full stops.
proof fn lemma_dotted(major: u32, minor: u32)
    ensures
        ({
            let ns = text::numbers(
                text::decimal(major as nat) + "."@ + text::decimal(minor as nat),
                Separator::Dot,
            );
            ns.len() == 2 && ns[0] == major && ns[1] == minor
        }),
{
    reveal_strlit(".");
    let (a, b) = (text::decimal(major as nat), text::decimal(minor as nat));
    let s = a + "."@ + b;
    text::decimal_reads_back(major as nat);
    text::decimal_reads_back(minor as nat);
    assert forall|i: int| 0 <= i < a.len() implies !text::separates(
        Separator::Dot,
        #[trigger] s[i],
    ) by {
        assert(s[i] == a[i]);
        assert(text::is_digit(a[i]));
    }
    assert(s[a.len() as int] == '.');
    text::lemma_field_len_is(s, Separator::Dot, a.len() as int);
    assert(s.take(a.len() as int) =~= a);
    assert(s.skip((a.len() + 1) as int) =~= b);
    assert forall|i: int| 0 <= i < b.len() implies !text::separates(
        Separator::Dot,
        #[trigger] b[i],
    ) by {
        assert(text::is_digit(b[i]));
    }
    text::lemma_field_len_is(b, Separator::Dot, b.len() as int);
    assert(b.take(b.len() as int) =~= b);
    assert(text::numbers(b, Separator::Dot) =~= seq![minor]);
    assert(text::numbers(s, Separator::Dot) =~= seq![major] + seq![minor]);
}

/// A single word: not empty, and without whitespace.
pub open spec fn is_word(w: Seq<char>) -> bool {
    &&& w.len() > 0
    &&& forall|i: int| 0 <= i < w.len() ==> !text::is_space(#[trigger] w[i])
}

/// Every element is a single word.
pub open spec fn are_words(list: Seq<Seq<char>>) -> bool {
    forall|i: int| 0 <= i < list.len() ==> is_word(#[trigger] list[i])
}

/// The words of a list written with blanks between them are the list.
pub proof fn words_of_a_list(list: Seq<Seq<char>>, w: Seq<char>)
    requires
        are_words(list),
        is_word(w),
    ensures
        text::has_word(text::joined(list, " "@), w) == list.contains(w),
        text::word_count(text::joined(list, " "@)) == list.len(),
        list.len() > 0 ==> text::joined(list, " "@).len() > 0 && !text::is_space(
            text::joined(list, " "@).last(),
        ),
    decreases list.len(),
{
    reveal_strlit(" ");
    let all = text::joined(list, " "@);
    if list.len() == 0 {
        assert(!text::has_word(all, w));
    } else {
        let last = list.last();
        assert(is_word(list[list.len() - 1]));
        let init = list.drop_last();
        assert forall|i: int| 0 <= i < init.len() implies is_word(#[trigger] init[i]) by {
            assert(init[i] == list[i]);
        }
        words_of_a_list(init, w);
        let pre = if init.len() == 0 {
            Seq::<char>::empty()
        } else {
            text::joined(init, " "@) + " "@
        };
        assert(all =~= pre + last) by {
            if init.len() > 0 {
                assert(all == text::joined(init, " "@) + " "@ + last);
            }
        }
        assert(pre.len() > 0 ==> pre.last() == ' ');
        // Counting.
        lemma_count_word(pre, last);
        if init.len() > 0 {
            let j = text::joined(init, " "@);
            assert(pre.drop_last() =~= j);
            assert(text::word_count(pre) == text::word_count(j));
        }
        assert(all.last() == last[last.len() - 1]);
        // Finding.
        if list.contains(w) {
            let k = choose|k: int| 0 <= k < list.len() && list[k] == w;
            if k == list.len() - 1 {
                assert(all.subrange(pre.len() as int, (pre.len() + w.len()) as int) =~= w);
                assert(text::word_at(all, w, pre.len() as int));
            } else {
                assert(init[k] == w);
                let j = text::joined(init, " "@);
                let i = choose|i: int| #[trigger] text::word_at(j, w, i);
                assert(all.subrange(i, i + w.len()) =~= j.subrange(i, i + w.len()));
                assert(text::word_at(all, w, i));
            }
        }
        if text::has_word(all, w) {
            let i = choose|i: int| #[trigger] text::word_at(all, w, i);
            let n = pre.len() as int;
            assert forall|k: int| 0 <= k < w.len() implies all[i + k] == #[trigger] w[k] by {
                assert(all.subrange(i, i + w.len())[k] == w[k]);
            }
            if i >= n {
                if i > n {
                    assert(all[i - 1] == last[i - 1 - n]);
                }
                assert(i == n);
                if i + w.len() < all.len() {
                    assert(all[i + w.len()] == last[w.len() as int]);
                }
                assert(w =~= last);
                assert(list[list.len() - 1] == w);
            } else {
                let j = text::joined(init, " "@);
                if i + w.len() >= n {
                    assert(all[n - 1] == ' ');
                    assert(w[n - 1 - i] == ' ');
                }
                assert(j.subrange(i, i + w.len()) =~= all.subrange(i, i + w.len()));
                assert(text::word_at(j, w, i));
                let k = choose|k: int| 0 <= k < init.len() && init[k] == w;
                assert(list[k] == w);
            }
        }
    }
}

/// One more word counts once.
proof fn lemma_count_word(pre: Seq<char>, w: Seq<char>)
    requires
        is_word(w),
        pre.len() > 0 ==> text::is_space(pre.last()),
    ensures
        text::word_count(pre + w) == text::word_count(pre) + 1,
    decreases w.len(),
{
    let s = pre + w;
    assert(s.last() == w[w.len() - 1]);
    if w.len() == 1 {
        assert(s.drop_last() =~= pre);
        if pre.len() > 0 {
            assert(s[s.len() - 2] == pre.last());
        }
    } else {
        let v = w.drop_last();
        assert forall|i: int| 0 <= i < v.len() implies !text::is_space(#[trigger] v[i]) by {
            assert(v[i] == w[i]);
        }
        lemma_count_word(pre, v);
        assert(s.drop_last() =~= pre + v);
        assert(s[s.len() - 2] == w[w.len() - 2]);
    }
}

/// A driver's extensions count one by one: compute and timers are there exactly
/// when their extensions are among the enumerated ones.
pub proof fn extensions_count_one_by_one(list: Seq<String>)
    requires
        are_words(text::string_views(list)),
    ensures
        gl::extension_has_compute(startup::extension_string(list)) == text::string_views(
            list,
        ).contains("GL_ARB_compute_shader"@),
        startup::has_timers(startup::extension_string(list)) == text::string_views(list).contains(
            "GL_ARB_timer_query"@,
        ),
        text::word_count(startup::extension_string(list)) == list.len(),
{
    reveal_strlit("GL_ARB_compute_shader");
    reveal_strlit("GL_ARB_timer_query");
    words_of_a_list(text::string_views(list), "GL_ARB_compute_shader"@);
    words_of_a_list(text::string_views(list), "GL_ARB_timer_query"@);
}

/// The prelude of every context: GLSL 4.30 from 4.3 on, GLSL 4.20 and the
/// extension on an older 4.x context that advertises compute, and none else.
pub proof fn preludes(major: u32, minor: u32, advertised: bool)
    ensures
        major > 4 || (major == 4 && minor >= 3) ==> gl::prelude(major, minor, advertised) == Some(
            "#version 430 core\n"@,
        ),
        major == 4 && minor < 3 && advertised ==> gl::prelude(major, minor, advertised) == Some(
            "#version 420 core\n#extension GL_ARB_compute_shader : require\n"@,
        ),
        major < 4 || (major == 4 && minor < 3 && !advertised) ==> gl::prelude(
            major,
            minor,
            advertised,
        ) is None,
{
}

/// What a driver amounts to, from the version it names and the extensions it
/// enumerates: on the desktop, compute from 4.3 on or with its extension, the
/// version as it is named, as many extensions as there are, timers with
/// theirs, and a backend that the fallback can be forced on.
pub proof fn what_a_desktop_driver_amounts_to(
    c: Capabilities,
    major: u32,
    minor: u32,
    rest: Seq<char>,
    list: Seq<String>,
    force: bool,
)
    requires
        follows_a_number(rest),
        are_words(text::string_views(list)),
        startup::amounts_to(c, version_string(major, minor, rest), list, force),
    ensures
        c.version == (major, minor),
        c.extensions == list.len(),
        c.compute == (major > 4 || (major == 4 && minor >= 3) || text::string_views(list).contains(
            "GL_ARB_compute_shader"@,
        )),
        c.timers == text::string_views(list).contains("GL_ARB_timer_query"@),
        c.backend.path() is Compute == (c.compute && !force),
{
    desktop_versions(major, minor, rest);
    extensions_count_one_by_one(list);
}

/// An embedded driver from 3.1 on has compute without any extension; before
/// that the extension decides.
pub proof fn what_an_embedded_driver_amounts_to(
    c: Capabilities,
    major: u32,
    minor: u32,
    rest: Seq<char>,
    list: Seq<String>,
    force: bool,
)
    requires
        follows_a_number(rest),
        rest.len() == 0 || text::is_space(rest[0]),
        are_words(text::string_views(list)),
        startup::amounts_to(
            c,
            "OpenGL ES "@ + version_string(major, minor, rest),
            list,
            force,
        ),
    ensures
        c.version == (major, minor),
        c.compute == (major > 3 || (major == 3 && minor >= 1) || text::string_views(list).contains(
            "GL_ARB_compute_shader"@,
        )),
{
    embedded_versions(major, minor, rest);
    extensions_count_one_by_one(list);
}

/// A listed extension gives compute to any driver, and nothing but the version
/// or the extension does.
pub proof fn when_there_is_compute(version: Seq<char>, extensions: Seq<char>)
    ensures
        gl::has_compute(version, extensions) == (gl::has_compute(version, ""@) || text::has_word(
            extensions,
            "GL_ARB_compute_shader"@,
        )),
{
    reveal_strlit("");
    reveal_strlit("GL_ARB_compute_shader");
    let none = ""@;
    if gl::extension_has_compute(none) {
        let i = choose|i: int| #[trigger] text::word_at(none, "GL_ARB_compute_shader"@, i);
        assert(i + 21 <= none.len());
    }
}

/// There is one best configuration: none has more samples, and of those with
/// as many it is the first.
pub proof fn there_is_one_best_configuration(samples: Seq<u8>, i: int, j: int)
    requires
        startup::is_best(samples, i),
        0 <= j < samples.len(),
    ensures
        samples[j] <= samples[i],
        samples[j] == samples[i] ==> i <= j,
        startup::is_best(samples, j) ==> i == j,
{
    assert(samples[j] <= samples[i]);
    if j < i {
        assert(samples[j] < samples[i]);
    }
    if startup::is_best(samples, j) {
        assert(samples[i] <= samples[j]);
        if i < j {
            assert(samples[i] < samples[j]);
        }
    }
}

} // verus!
