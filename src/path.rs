//! Turning a decoded request path into validated components and an
//! extension key.
//!
//! A path arrives as a sequence of glyphs: one per code unit of the payload,
//! each the character it stands for, or `None` where the unit stands for no
//! character; a single `None` anywhere refuses the request. The path starts after the first `/` glyph (or at the start, if
//! there is none) and is split on `/` glyphs. The extension key is what
//! follows the last `.` glyph of the whole path; a path without one is
//! refused (strict policy, no default handler).
use vstd::prelude::*;

verus! {

/// The glyph that separates path components.
pub open spec fn slash() -> Option<char> {
    Some('/')
}

/// The glyph that introduces the extension.
pub open spec fn dot() -> Option<char> {
    Some('.')
}

/// The index of the first `/` glyph at or after `i`, or -1.
pub open spec fn first_slash_from(gs: Seq<Option<char>>, i: int) -> int
    decreases gs.len() - i,
{
    if i < 0 || i >= gs.len() {
        -1
    } else if gs[i] == slash() {
        i
    } else {
        first_slash_from(gs, i + 1)
    }
}

/// Where the path starts: just after the first `/`, or at 0 without one.
pub open spec fn path_start(gs: Seq<Option<char>>) -> int {
    if first_slash_from(gs, 0) < 0 {
        0
    } else {
        first_slash_from(gs, 0) + 1
    }
}

/// The glyphs of the path proper.
pub open spec fn path_of(gs: Seq<Option<char>>) -> Seq<Option<char>> {
    gs.subrange(path_start(gs), gs.len() as int)
}

/// `s` split on every occurrence of `sep`, as slice splitting does: one more
/// piece than there are separators.
pub open spec fn split_on(s: Seq<Option<char>>, sep: Option<char>) -> Seq<Seq<Option<char>>>
    decreases s.len(),
{
    if s.len() == 0 {
        seq![Seq::<Option<char>>::empty()]
    } else {
        let p = split_on(s.drop_last(), sep);
        if s.last() == sep {
            p.push(Seq::<Option<char>>::empty())
        } else {
            p.update(p.len() - 1, p.last().push(s.last()))
        }
    }
}

/// The pieces joined back together with `sep` between them.
pub open spec fn join_with<T>(cs: Seq<Seq<T>>, sep: T) -> Seq<T>
    decreases cs.len(),
{
    if cs.len() == 0 {
        Seq::<T>::empty()
    } else if cs.len() == 1 {
        cs[0]
    } else {
        join_with(cs.drop_last(), sep) + seq![sep] + cs.last()
    }
}

/// The raw components of the path.
pub open spec fn components_of(gs: Seq<Option<char>>) -> Seq<Seq<Option<char>>> {
    split_on(path_of(gs), slash())
}

/// The character of a glyph (a placeholder for `None`).
pub open spec fn glyph_char(g: Option<char>) -> char {
    match g {
        Some(c) => c,
        None => ' ',
    }
}

/// Every glyph stands for a character.
pub open spec fn all_decodable(s: Seq<Option<char>>) -> bool {
    forall|i: int| 0 <= i < s.len() ==> (#[trigger] s[i]).is_some()
}

/// The text of decodable glyphs.
pub open spec fn text_of(s: Seq<Option<char>>) -> Seq<char> {
    s.map_values(|g: Option<char>| glyph_char(g))
}

/// A character that may stand in a component: printable ASCII, no backslash.
pub open spec fn char_allowed(c: char) -> bool {
    0x20 < (c as u32) < 0x80 && c != '\\'
}

/// The text is empty or made of dots only.
pub open spec fn all_dots(t: Seq<char>) -> bool {
    forall|i: int| 0 <= i < t.len() ==> #[trigger] t[i] == '.'
}

/// A component that the sanitizer lets through.
pub open spec fn component_ok(c: Seq<Option<char>>) -> bool {
    &&& all_decodable(c)
    &&& !all_dots(text_of(c))
    &&& forall|i: int| 0 <= i < c.len() ==> char_allowed(#[trigger] glyph_char(c[i]))
}

/// The index of the last `.` glyph before `i`, or -1.
pub open spec fn last_dot_before(s: Seq<Option<char>>, i: int) -> int
    decreases i,
{
    if i <= 0 || i > s.len() {
        -1
    } else if s[i - 1] == dot() {
        i - 1
    } else {
        last_dot_before(s, i - 1)
    }
}

/// The glyphs after the last `.` of the path.
pub open spec fn extension_glyphs(gs: Seq<Option<char>>) -> Seq<Option<char>> {
    let p = path_of(gs);
    p.subrange(last_dot_before(p, p.len() as int) + 1, p.len() as int)
}

/// A request path that resolves: every glyph of the payload stands for a
/// character, every component passes the sanitizer, and the path holds a `.`.
pub open spec fn route_valid(gs: Seq<Option<char>>) -> bool {
    let p = path_of(gs);
    &&& all_decodable(gs)
    &&& forall|k: int| 0 <= k < components_of(gs).len() ==> component_ok(#[trigger] components_of(gs)[k])
    &&& last_dot_before(p, p.len() as int) >= 0
    &&& all_decodable(extension_glyphs(gs))
}

/// The text of each component of a valid path.
pub open spec fn route_components(gs: Seq<Option<char>>) -> Seq<Seq<char>> {
    components_of(gs).map_values(|c: Seq<Option<char>>| text_of(c))
}

/// The extension key of a valid path.
pub open spec fn route_extension(gs: Seq<Option<char>>) -> Seq<char> {
    text_of(extension_glyphs(gs))
}

/// A resolved request: the sanitized components, in order, and the
/// extension key that selects the handler.
pub struct Route {
    pub components: Vec<Vec<char>>,
    pub extension: Vec<char>,
}

impl Route {
    /// The components' texts.
    pub open spec fn components_view(&self) -> Seq<Seq<char>> {
        Seq::new(self.components@.len(), |k: int| self.components@[k]@)
    }

    /// Holds when this is the resolution of the glyphs `gs`.
    pub open spec fn resolves(&self, gs: Seq<Option<char>>) -> bool {
        &&& self.components_view() == route_components(gs)
        &&& self.extension@ == route_extension(gs)
    }
}

fn is_glyph(g: Option<char>, c: char) -> (r: bool)
    ensures
        r == (g == Some(c)),
{
    match g {
        Some(x) => x == c,
        None => false,
    }
}

/// Where the path starts in `gs`: just after the first `/`, else 0.
pub fn find_path_start(gs: &[Option<char>]) -> (r: usize)
    ensures
        r as int == path_start(gs@),
        r <= gs@.len(),
{
    let mut i: usize = 0;
    while i < gs.len()
        invariant
            i <= gs@.len(),
            first_slash_from(gs@, 0) == first_slash_from(gs@, i as int),
        decreases gs@.len() - i,
    {
        if is_glyph(gs[i], '/') {
            return i + 1;
        }
        i = i + 1;
    }
    0
}

proof fn lemma_split_nonempty(s: Seq<Option<char>>, sep: Option<char>)
    ensures
        split_on(s, sep).len() >= 1,
    decreases s.len(),
{
    if s.len() > 0 {
        lemma_split_nonempty(s.drop_last(), sep);
    }
}

/// Splits `path` on every `/` glyph.
pub fn split_components(path: &[Option<char>]) -> (r: Vec<Vec<Option<char>>>)
    ensures
        r@.len() == split_on(path@, slash()).len(),
        forall|k: int| 0 <= k < r@.len() ==> (#[trigger] r@[k])@ == split_on(path@, slash())[k],
{
    let mut done: Vec<Vec<Option<char>>> = Vec::new();
    let mut cur: Vec<Option<char>> = Vec::new();
    let mut i: usize = 0;
    while i < path.len()
        invariant
            i <= path@.len(),
            done@.len() + 1 == split_on(path@.subrange(0, i as int), slash()).len(),
            forall|k: int|
                0 <= k < done@.len() ==> (#[trigger] done@[k])@ == split_on(
                    path@.subrange(0, i as int),
                    slash(),
                )[k],
            cur@ == split_on(path@.subrange(0, i as int), slash()).last(),
        decreases path@.len() - i,
    {
        let ghost prev = path@.subrange(0, i as int);
        let ghost next = path@.subrange(0, i as int + 1);
        assert(next.drop_last() =~= prev);
        proof {
            lemma_split_nonempty(prev, slash());
        }
        let g = path[i];
        if is_glyph(g, '/') {
            done.push(cur);
            cur = Vec::new();
        } else {
            cur.push(g);
        }
        i = i + 1;
    }
    assert(path@.subrange(0, path@.len() as int) =~= path@);
    done.push(cur);
    done
}

/// The text of `s`, or `None` where some glyph stands for no character.
pub fn decode_glyphs(s: &[Option<char>]) -> (r: Option<Vec<char>>)
    ensures
        r.is_some() <==> all_decodable(s@),
        r matches Some(t) ==> t@ == text_of(s@),
{
    let mut out: Vec<char> = Vec::new();
    let mut i: usize = 0;
    while i < s.len()
        invariant
            i <= s@.len(),
            all_decodable(s@.subrange(0, i as int)),
            out@ == text_of(s@.subrange(0, i as int)),
        decreases s@.len() - i,
    {
        match s[i] {
            Some(c) => {
                out.push(c);
            },
            None => {
                assert(!s@[i as int].is_some());
                return None;
            },
        }
        i = i + 1;
        assert(text_of(s@.subrange(0, i as int)) =~= text_of(s@.subrange(0, i as int - 1)).push(
            glyph_char(s@[i - 1]),
        ));
    }
    assert(s@.subrange(0, s@.len() as int) =~= s@);
    Some(out)
}

/// Whether `c` may stand in a path component.
pub fn char_is_allowed(c: char) -> (r: bool)
    ensures
        r == char_allowed(c),
{
    let v = c as u32;
    0x20 < v && v < 0x80 && c != '\\'
}

/// The component's text, where the sanitizer lets it through.
pub fn sanitize_component(c: &[Option<char>]) -> (r: Option<Vec<char>>)
    ensures
        r.is_some() <==> component_ok(c@),
        r matches Some(t) ==> t@ == text_of(c@),
{
    let text = match decode_glyphs(c) {
        Some(t) => t,
        None => {
            return None;
        },
    };
    let mut only_dots = true;
    let mut i: usize = 0;
    while i < text.len()
        invariant
            i <= text@.len(),
            text@ == text_of(c@),
            all_decodable(c@),
            only_dots == (forall|j: int| 0 <= j < i ==> #[trigger] text@[j] == '.'),
            forall|j: int| 0 <= j < i ==> char_allowed(#[trigger] glyph_char(c@[j])),
        decreases text@.len() - i,
    {
        let ch = text[i];
        assert(ch == glyph_char(c@[i as int]));
        if !char_is_allowed(ch) {
            return None;
        }
        if ch != '.' {
            only_dots = false;
        }
        i = i + 1;
    }
    if only_dots {
        None
    } else {
        Some(text)
    }
}

/// The index of the last `.` glyph of `p`, if any.
pub fn find_last_dot(p: &[Option<char>]) -> (r: Option<usize>)
    ensures
        r.is_none() <==> last_dot_before(p@, p@.len() as int) < 0,
        r matches Some(i) ==> i < p@.len() && i as int == last_dot_before(p@, p@.len() as int),
{
    let mut i: usize = p.len();
    while i > 0
        invariant
            i <= p@.len(),
            last_dot_before(p@, p@.len() as int) == last_dot_before(p@, i as int),
        decreases i,
    {
        if is_glyph(p[i - 1], '.') {
            return Some(i - 1);
        }
        i = i - 1;
    }
    None
}

/// Resolves the glyphs of a request into its sanitized components and its
/// extension key; `None` where the request is to be refused.
pub fn resolve_route(gs: &[Option<char>]) -> (r: Option<Route>)
    ensures
        r.is_some() <==> route_valid(gs@),
        r matches Some(route) ==> route.resolves(gs@),
{
    if decode_glyphs(gs).is_none() {
        return None;
    }
    let start = find_path_start(gs);
    let path = &gs[start..gs.len()];
    assert(path@ == path_of(gs@));
    let raw = split_components(path);
    let mut components: Vec<Vec<char>> = Vec::new();
    let mut k: usize = 0;
    while k < raw.len()
        invariant
            k <= raw@.len(),
            raw@.len() == components_of(gs@).len(),
            forall|j: int| 0 <= j < raw@.len() ==> (#[trigger] raw@[j])@ == components_of(gs@)[j],
            components@.len() == k,
            forall|j: int| 0 <= j < k ==> component_ok(#[trigger] components_of(gs@)[j]),
            forall|j: int| 0 <= j < k ==> (#[trigger] components@[j])@ == text_of(components_of(gs@)[j]),
        decreases raw@.len() - k,
    {
        match sanitize_component(raw[k].as_slice()) {
            Some(t) => {
                components.push(t);
            },
            None => {
                assert(!component_ok(components_of(gs@)[k as int]));
                return None;
            },
        }
        k = k + 1;
    }
    let d = match find_last_dot(path) {
        Some(d) => d,
        None => {
            return None;
        },
    };
    let ext_glyphs = &path[d + 1..path.len()];
    assert(ext_glyphs@ == extension_glyphs(gs@));
    let extension = match decode_glyphs(ext_glyphs) {
        Some(t) => t,
        None => {
            return None;
        },
    };
    let route = Route { components, extension };
    assert(route.components_view() =~= route_components(gs@));
    Some(route)
}

/// The glyph of a raw payload byte: the character with that code point.
pub open spec fn raw_glyph(b: u8) -> Option<char> {
    Some(b as char)
}

/// The glyphs of a raw-byte payload.
pub open spec fn raw_glyphs_of(bs: Seq<u8>) -> Seq<Option<char>> {
    bs.map_values(|b: u8| raw_glyph(b))
}

/// Decodes a raw-byte payload: each byte stands for the character with
/// that code point.
pub fn decode_raw(payload: &[u8]) -> (r: Vec<Option<char>>)
    ensures
        r@ == raw_glyphs_of(payload@),
{
    let mut out: Vec<Option<char>> = Vec::new();
    let mut i: usize = 0;
    while i < payload.len()
        invariant
            i <= payload@.len(),
            out@ == raw_glyphs_of(payload@.subrange(0, i as int)),
        decreases payload@.len() - i,
    {
        let b = payload[i];
        out.push(Some(b as char));
        i = i + 1;
        assert(raw_glyphs_of(payload@.subrange(0, i as int)) =~= raw_glyphs_of(
            payload@.subrange(0, i as int - 1),
        ).push(raw_glyph(b)));
    }
    assert(payload@.subrange(0, payload@.len() as int) =~= payload@);
    out
}

proof fn lemma_join_split(s: Seq<Option<char>>, sep: Option<char>)
    ensures
        join_with(split_on(s, sep), sep) == s,
    decreases s.len(),
{
    if s.len() > 0 {
        let p = split_on(s.drop_last(), sep);
        lemma_join_split(s.drop_last(), sep);
        lemma_split_nonempty(s.drop_last(), sep);
        if s.last() == sep {
            assert(p.push(Seq::<Option<char>>::empty()).drop_last() =~= p);
            assert(s =~= s.drop_last() + seq![sep] + Seq::<Option<char>>::empty());
        } else {
            let q = p.update(p.len() - 1, p.last().push(s.last()));
            assert(q.drop_last() =~= p.drop_last());
            if p.len() == 1 {
                assert(s =~= p[0].push(s.last()));
            } else {
                assert(join_with(p, sep) == join_with(p.drop_last(), sep) + seq![sep] + p.last());
                assert(join_with(q, sep) == join_with(q.drop_last(), sep) + seq![sep] + q.last());
                assert(s =~= s.drop_last().push(s.last()));
                assert(s =~= join_with(p.drop_last(), sep) + seq![sep] + p.last().push(s.last()));
            }
        }
    }
}

proof fn lemma_text_concat(a: Seq<Option<char>>, b: Seq<Option<char>>)
    ensures
        text_of(a + b) == text_of(a) + text_of(b),
{
    assert(text_of(a + b) =~= text_of(a) + text_of(b));
}

proof fn lemma_text_join(cs: Seq<Seq<Option<char>>>)
    ensures
        text_of(join_with(cs, slash())) == join_with(
            cs.map_values(|c: Seq<Option<char>>| text_of(c)),
            '/',
        ),
    decreases cs.len(),
{
    let ts = cs.map_values(|c: Seq<Option<char>>| text_of(c));
    if cs.len() == 0 {
        assert(text_of(Seq::<Option<char>>::empty()) =~= Seq::<char>::empty());
    } else if cs.len() > 1 {
        lemma_text_join(cs.drop_last());
        assert(ts.drop_last() =~= cs.drop_last().map_values(|c: Seq<Option<char>>| text_of(c)));
        let head = join_with(cs.drop_last(), slash());
        lemma_text_concat(head + seq![slash()], cs.last());
        lemma_text_concat(head, seq![slash()]);
        assert(text_of(seq![slash()]) =~= seq!['/']);
    }
}

/// Joining the components of a resolved path with `/` gives back the text
/// of the path: resolution drops nothing and reorders nothing.
pub proof fn lemma_components_rejoin(gs: Seq<Option<char>>)
    requires
        route_valid(gs),
    ensures
        join_with(route_components(gs), '/') == text_of(path_of(gs)),
{
    lemma_join_split(path_of(gs), slash());
    lemma_text_join(components_of(gs));
}

/// A component made of dots alone (`.`, `..`, `...`) refuses the whole
/// request, wherever it stands in the path.
pub proof fn lemma_dot_component_rejected(gs: Seq<Option<char>>, k: int)
    requires
        0 <= k < components_of(gs).len(),
        forall|i: int| 0 <= i < components_of(gs)[k].len() ==> #[trigger] components_of(gs)[k][i] == dot(),
    ensures
        !route_valid(gs),
{
    let c = components_of(gs)[k];
    assert forall|i: int| 0 <= i < text_of(c).len() implies #[trigger] text_of(c)[i] == '.' by {
        assert(c[i] == dot());
    }
    assert(!component_ok(c));
}

} // verus!
