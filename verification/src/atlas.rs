//! The atlas description loader.
//!
//! A description file holds one `TextureAtlas` root element with an
//! `imagePath` attribute and any number of `SubTexture` children, each
//! carrying `name`, `x`, `y`, `width` and `height`.  Loading is split in
//! two stages around the nested image load: [`begin_load`] parses the
//! markup up to the atlas element and hands back the image path;
//! [`finish_load`] resumes with the image's pixel size and builds the
//! [`Layout`] and the name-to-index mapping.
//!
//! The whole behaviour is pinned by the spec functions [`find_from`]
//! (locating the atlas element), [`sub_entry`] (reading one sub-texture
//! element) and [`build_from`] (consuming the atlas element's children).

use vstd::prelude::*;

use crate::events::{attr_of, attr_value, read_xml_events, str_eq, xml_events_of, Event};
use crate::layout::{Layout, Rect};
use crate::names::NameMap;
use crate::numbers::{parse_u32, spec_parse_u32};

verus! {

/// Why a load failed.
///
/// The first four variants are produced while parsing the description; the
/// rest are produced by the embedding application around the asset store
/// (reading the byte source, resolving the image path, the nested image
/// load) and belong to the same taxonomy.
#[derive(Debug, PartialEq, Eq)]
pub enum AtlasError {
    /// The byte source could not be read.
    Io,
    /// The stream is not well-formed markup, or it ends inside the atlas
    /// element.
    Markup,
    /// A numeric attribute is not a valid unsigned integer.
    Number,
    /// A required attribute is absent; carries the element tag and the
    /// attribute name.
    MissingAttribute(String, String),
    /// No parent directory is available to resolve the image path against.
    Path,
    /// The nested image load failed.
    NestedLoad,
    /// The resolved image path is not a valid asset path.
    PathParse,
    /// The nested load finished but yielded no image.
    ImageGet,
    /// The document ended without any atlas element.
    NoAtlas,
}

/// The parse failures of the specification model.
pub ghost enum LoadErr {
    Markup,
    Number,
    Missing { element: Seq<char>, attribute: Seq<char> },
    NoAtlas,
}

/// The executable error that a model failure maps to.
pub open spec fn err_matches(e: AtlasError, s: LoadErr) -> bool {
    match s {
        LoadErr::Markup => e is Markup,
        LoadErr::Number => e is Number,
        LoadErr::Missing { element, attribute } => e matches AtlasError::MissingAttribute(el, at)
            && el@ == element && at@ == attribute,
        LoadErr::NoAtlas => e is NoAtlas,
    }
}

/// Outcome of scanning for the atlas element.
pub ghost enum FindOut {
    /// The atlas element starts; `path` is its image path and `next` the
    /// position just after the start event.
    Found { path: Seq<char>, next: int },
    Failed { err: LoadErr },
}

/// Outcome of consuming the atlas element's children.
pub ghost enum BuildOut {
    Done { rects: Seq<Rect>, names: Map<Seq<char>, usize>, warns: Seq<Seq<char>>, next: int },
    Failed { err: LoadErr },
}

/// What one sub-texture element denotes: its name and rectangle, or the
/// first failure among its required attributes, checked in the order
/// `name`, `x`, `y`, `width`, `height`.
pub open spec fn sub_entry(attrs: Seq<(String, String)>) -> Result<(Seq<char>, Rect), LoadErr> {
    match attr_of(attrs, "name"@) {
        Option::None => Result::Err(
            LoadErr::Missing { element: "SubTexture"@, attribute: "name"@ },
        ),
        Option::Some(nm) => match attr_of(attrs, "x"@) {
            Option::None => Result::Err(
                LoadErr::Missing { element: "SubTexture"@, attribute: "x"@ },
            ),
            Option::Some(xs) => match spec_parse_u32(xs) {
                Option::None => Result::Err(LoadErr::Number),
                Option::Some(x) => match attr_of(attrs, "y"@) {
                    Option::None => Result::Err(
                        LoadErr::Missing { element: "SubTexture"@, attribute: "y"@ },
                    ),
                    Option::Some(ys) => match spec_parse_u32(ys) {
                        Option::None => Result::Err(LoadErr::Number),
                        Option::Some(y) => match attr_of(attrs, "width"@) {
                            Option::None => Result::Err(
                                LoadErr::Missing { element: "SubTexture"@, attribute: "width"@ },
                            ),
                            Option::Some(ws) => match spec_parse_u32(ws) {
                                Option::None => Result::Err(LoadErr::Number),
                                Option::Some(width) => match attr_of(attrs, "height"@) {
                                    Option::None => Result::Err(
                                        LoadErr::Missing {
                                            element: "SubTexture"@,
                                            attribute: "height"@,
                                        },
                                    ),
                                    Option::Some(hs) => match spec_parse_u32(hs) {
                                        Option::None => Result::Err(LoadErr::Number),
                                        Option::Some(height) => Result::Ok(
                                            (nm, Rect { x, y, width, height }),
                                        ),
                                    },
                                },
                            },
                        },
                    },
                },
            },
        },
    }
}

/// Scan for the first top-level `TextureAtlas` element from position `i` at
/// element depth `depth`.  Other content is ignored; the document ending
/// first means no atlas was found; a malformed stream fails.
pub open spec fn find_from(events: Seq<Event>, i: int, depth: int) -> FindOut
    decreases events.len() - i,
{
    if i < 0 || i >= events.len() {
        FindOut::Failed { err: LoadErr::Markup }
    } else {
        match events[i] {
            Event::Malformed => FindOut::Failed { err: LoadErr::Markup },
            Event::DocEnd => FindOut::Failed { err: LoadErr::NoAtlas },
            Event::Start { name, attrs } => if depth == 0 && name@ == "TextureAtlas"@ {
                match attr_of(attrs@, "imagePath"@) {
                    Option::Some(p) => FindOut::Found { path: p, next: i + 1 },
                    Option::None => FindOut::Failed {
                        err: LoadErr::Missing { element: "TextureAtlas"@, attribute: "imagePath"@ },
                    },
                }
            } else {
                find_from(events, i + 1, depth + 1)
            },
            Event::End { name } => find_from(events, i + 1, if depth > 0 {
                depth - 1
            } else {
                0
            }),
            Event::Other => find_from(events, i + 1, depth),
        }
    }
}

/// Consume the children of an atlas element whose tag is `parent`, from
/// position `i`, extending the accumulated rectangles, mapping and
/// warnings.  A valid `SubTexture` child appends its rectangle and maps its
/// name to the rectangle's index (overwriting an earlier entry with the
/// same name); any other child element is skipped with a warning naming its
/// tag; the matching end tag completes the build; the document ending
/// first is a parse failure.
pub open spec fn build_from(
    events: Seq<Event>,
    i: int,
    parent: Seq<char>,
    rects: Seq<Rect>,
    names: Map<Seq<char>, usize>,
    warns: Seq<Seq<char>>,
) -> BuildOut
    decreases events.len() - i,
{
    if i < 0 || i >= events.len() {
        BuildOut::Failed { err: LoadErr::Markup }
    } else {
        match events[i] {
            Event::Malformed => BuildOut::Failed { err: LoadErr::Markup },
            Event::DocEnd => BuildOut::Failed { err: LoadErr::Markup },
            Event::End { name } => if name@ == parent {
                BuildOut::Done { rects, names, warns, next: i + 1 }
            } else {
                build_from(events, i + 1, parent, rects, names, warns)
            },
            Event::Other => build_from(events, i + 1, parent, rects, names, warns),
            Event::Start { name, attrs } => if name@ == "SubTexture"@ {
                match sub_entry(attrs@) {
                    Result::Ok((nm, r)) => build_from(
                        events,
                        i + 1,
                        parent,
                        rects.push(r),
                        names.insert(nm, rects.len() as usize),
                        warns,
                    ),
                    Result::Err(e) => BuildOut::Failed { err: e },
                }
            } else {
                build_from(events, i + 1, parent, rects, names, warns.push(name@))
            },
        }
    }
}

/// After the atlas element, the rest of the document is ignored up to its
/// end; a malformed tail still fails the load.
pub open spec fn tail_ok(events: Seq<Event>, i: int) -> bool
    decreases events.len() - i,
{
    if i < 0 || i >= events.len() {
        false
    } else {
        match events[i] {
            Event::DocEnd => true,
            Event::Malformed => false,
            _ => tail_ok(events, i + 1),
        }
    }
}

/// Where the atlas element starts: its image path and the position of its
/// first child event.
pub struct FoundAtlas {
    pub image_path: String,
    pub next: usize,
}

/// Find the first top-level atlas element of an event stream.
pub fn find_texture_atlas(events: &Vec<Event>) -> (r: Result<FoundAtlas, AtlasError>)
    ensures
        match r {
            Ok(f) => find_from(events@, 0, 0) matches FindOut::Found { path, next }
                && f.image_path@ == path && f.next == next && f.next <= events@.len(),
            Err(e) => find_from(events@, 0, 0) matches FindOut::Failed { err } && err_matches(
                e,
                err,
            ),
        },
{
    let n = events.len();
    let mut i: usize = 0;
    let mut depth: usize = 0;
    while i < n
        invariant
            i <= n,
            depth <= i,
            n == events@.len(),
            find_from(events@, 0, 0) == find_from(events@, i as int, depth as int),
        decreases n - i,
    {
        match &events[i] {
            Event::Malformed => {
                return Err(AtlasError::Markup);
            },
            Event::DocEnd => {
                return Err(AtlasError::NoAtlas);
            },
            Event::Start { name, attrs } => {
                if depth == 0 && str_eq(name.as_str(), "TextureAtlas") {
                    match attr_value(attrs, "imagePath") {
                        Some(p) => {
                            return Ok(FoundAtlas { image_path: p.clone(), next: i + 1 });
                        },
                        None => {
                            return Err(
                                AtlasError::MissingAttribute(
                                    String::from_str("TextureAtlas"),
                                    String::from_str("imagePath"),
                                ),
                            );
                        },
                    }
                }
                depth = depth + 1;
            },
            Event::End { name: _ } => {
                if depth > 0 {
                    depth = depth - 1;
                }
            },
            Event::Other => {},
        }
        i = i + 1;
    }
    Err(AtlasError::Markup)
}

/// The outputs of one atlas element: the layout, the mapping, the warnings
/// (names of skipped child elements) and the position just after the
/// element's end tag.
pub struct ParsedAtlas {
    pub layout: Layout,
    pub names: NameMap,
    pub warnings: Vec<String>,
    pub next: usize,
}

/// Consume the children of an atlas element, building the layout (for an
/// image of the given pixel size) and the name-to-index mapping.
pub fn parse_texture_atlas(
    events: &Vec<Event>,
    start: usize,
    parent: &str,
    width: u32,
    height: u32,
) -> (r: Result<ParsedAtlas, AtlasError>)
    ensures
        match r {
            Ok(p) => build_from(
                events@,
                start as int,
                parent@,
                Seq::empty(),
                Map::empty(),
                Seq::empty(),
            ) matches BuildOut::Done { rects, names, warns, next } && p.layout@ == rects
                && p.names@ == names && p.warnings.deep_view() == warns && p.next == next
                && p.next <= events@.len() && p.layout.spec_width() == width
                && p.layout.spec_height() == height,
            Err(e) => build_from(
                events@,
                start as int,
                parent@,
                Seq::empty(),
                Map::empty(),
                Seq::empty(),
            ) matches BuildOut::Failed { err } && err_matches(e, err),
        },
{
    let n = events.len();
    let mut layout = Layout::new_empty(width, height);
    let mut names = NameMap::new();
    let mut warnings: Vec<String> = Vec::new();
    let mut i: usize = start;
    proof {
        assert(warnings.deep_view() =~= Seq::<Seq<char>>::empty());
    }
    while i < n
        invariant
            n == events@.len(),
            layout.spec_width() == width,
            layout.spec_height() == height,
            build_from(events@, start as int, parent@, Seq::empty(), Map::empty(), Seq::empty())
                == build_from(events@, i as int, parent@, layout@, names@, warnings.deep_view()),
        decreases n - i,
    {
        match &events[i] {
            Event::Malformed => {
                return Err(AtlasError::Markup);
            },
            Event::DocEnd => {
                return Err(AtlasError::Markup);
            },
            Event::End { name } => {
                if str_eq(name.as_str(), parent) {
                    return Ok(ParsedAtlas { layout, names, warnings, next: i + 1 });
                }
            },
            Event::Other => {},
            Event::Start { name, attrs } => {
                if str_eq(name.as_str(), "SubTexture") {
                    let sprite = match attr_value(attrs, "name") {
                        Some(v) => v,
                        None => {
                            return Err(
                                AtlasError::MissingAttribute(
                                    String::from_str("SubTexture"),
                                    String::from_str("name"),
                                ),
                            );
                        },
                    };
                    let x = match attr_value(attrs, "x") {
                        Some(v) => match parse_u32(v.as_str()) {
                            Some(x) => x,
                            None => {
                                return Err(AtlasError::Number);
                            },
                        },
                        None => {
                            return Err(
                                AtlasError::MissingAttribute(
                                    String::from_str("SubTexture"),
                                    String::from_str("x"),
                                ),
                            );
                        },
                    };
                    let y = match attr_value(attrs, "y") {
                        Some(v) => match parse_u32(v.as_str()) {
                            Some(y) => y,
                            None => {
                                return Err(AtlasError::Number);
                            },
                        },
                        None => {
                            return Err(
                                AtlasError::MissingAttribute(
                                    String::from_str("SubTexture"),
                                    String::from_str("y"),
                                ),
                            );
                        },
                    };
                    let w = match attr_value(attrs, "width") {
                        Some(v) => match parse_u32(v.as_str()) {
                            Some(w) => w,
                            None => {
                                return Err(AtlasError::Number);
                            },
                        },
                        None => {
                            return Err(
                                AtlasError::MissingAttribute(
                                    String::from_str("SubTexture"),
                                    String::from_str("width"),
                                ),
                            );
                        },
                    };
                    let h = match attr_value(attrs, "height") {
                        Some(v) => match parse_u32(v.as_str()) {
                            Some(h) => h,
                            None => {
                                return Err(AtlasError::Number);
                            },
                        },
                        None => {
                            return Err(
                                AtlasError::MissingAttribute(
                                    String::from_str("SubTexture"),
                                    String::from_str("height"),
                                ),
                            );
                        },
                    };
                    let rect = Rect { x, y, width: w, height: h };
                    let index = layout.add_texture(rect);
                    names.insert(sprite.clone(), index);
                } else {
                    let ghost before = warnings.deep_view();
                    warnings.push(name.clone());
                    proof {
                        assert(warnings.deep_view() =~= before.push(name@));
                    }
                }
            },
        }
        i = i + 1;
    }
    Err(AtlasError::Markup)
}

/// The primary asset of a load: the mapping from sprite names to layout
/// indices, immutable once constructed.
#[derive(Debug)]
pub struct XMLTextureAtlas {
    names: NameMap,
}

impl View for XMLTextureAtlas {
    type V = Map<Seq<char>, usize>;

    closed spec fn view(&self) -> Map<Seq<char>, usize> {
        self.names@
    }
}

impl XMLTextureAtlas {
    pub fn new(names: NameMap) -> (a: XMLTextureAtlas)
        ensures
            a@ == names@,
    {
        XMLTextureAtlas { names }
    }

    /// The layout index recorded under a sprite name, if any.
    pub fn get(&self, name: &str) -> (r: Option<usize>)
        ensures
            match r {
                Some(v) => self@.contains_key(name@) && self@[name@] == v,
                None => !self@.contains_key(name@),
            },
    {
        self.names.get(name)
    }

    /// How many names are mapped.
    pub fn len(&self) -> (n: usize)
        ensures
            n == self@.dom().len(),
    {
        self.names.len()
    }
}

/// A load suspended at its one asynchronous point: the atlas element has
/// been found and its image path read; the event cursor is owned here and
/// handed back to [`finish_load`] together with the image's size.
pub struct PendingAtlas {
    pub events: Vec<Event>,
    pub next: usize,
    pub image_path: String,
}

/// Everything a finished load publishes: the mapping (the primary asset),
/// the layout and the non-fatal warnings gathered while parsing.
pub struct LoadedAtlas {
    pub atlas: XMLTextureAtlas,
    pub layout: Layout,
    pub warnings: Vec<String>,
}

/// First stage of a load: parse the bytes of a description file up to the
/// atlas element.  On success the caller resolves the returned image path
/// against the file's own directory, loads the image, and resumes with
/// [`finish_load`].
pub fn begin_load(bytes: &Vec<u8>) -> (r: Result<PendingAtlas, AtlasError>)
    ensures
        match r {
            Ok(p) => p.events@ == xml_events_of(bytes@) && (find_from(p.events@, 0, 0)
                matches FindOut::Found { path, next } && p.image_path@ == path && p.next == next
                && p.next <= p.events@.len()),
            Err(e) => find_from(xml_events_of(bytes@), 0, 0) matches FindOut::Failed { err }
                && err_matches(e, err),
        },
{
    let events = read_xml_events(bytes);
    match find_texture_atlas(&events) {
        Ok(f) => Ok(PendingAtlas { events, next: f.next, image_path: f.image_path }),
        Err(e) => Err(e),
    }
}

/// Second stage of a load, resumed with the pixel size of the loaded
/// image: consume the atlas element's children and the rest of the
/// document, and assemble the mapping and the layout.  Nothing is
/// published on failure.
pub fn finish_load(pending: PendingAtlas, width: u32, height: u32) -> (r: Result<
    LoadedAtlas,
    AtlasError,
>)
    ensures
        match r {
            Ok(l) => build_from(
                pending.events@,
                pending.next as int,
                "TextureAtlas"@,
                Seq::empty(),
                Map::empty(),
                Seq::empty(),
            ) matches BuildOut::Done { rects, names, warns, next } && l.layout@ == rects
                && l.atlas@ == names && l.warnings.deep_view() == warns && tail_ok(
                pending.events@,
                next,
            ) && l.layout.spec_width() == width && l.layout.spec_height() == height,
            Err(e) => (build_from(
                pending.events@,
                pending.next as int,
                "TextureAtlas"@,
                Seq::empty(),
                Map::empty(),
                Seq::empty(),
            ) matches BuildOut::Failed { err } && err_matches(e, err)) || (build_from(
                pending.events@,
                pending.next as int,
                "TextureAtlas"@,
                Seq::empty(),
                Map::empty(),
                Seq::empty(),
            ) matches BuildOut::Done { next, .. } && !tail_ok(pending.events@, next)
                && e is Markup),
        },
{
    let parsed = match parse_texture_atlas(&pending.events, pending.next, "TextureAtlas", width, height) {
        Ok(p) => p,
        Err(e) => {
            return Err(e);
        },
    };
    let n = pending.events.len();
    let mut i: usize = parsed.next;
    while i < n
        invariant
            n == pending.events@.len(),
            (build_from(
                pending.events@,
                pending.next as int,
                "TextureAtlas"@,
                Seq::empty(),
                Map::empty(),
                Seq::empty(),
            ) matches BuildOut::Done { rects, names, warns, next } && parsed.layout@ == rects
                && parsed.names@ == names && parsed.warnings.deep_view() == warns && parsed.next
                == next),
            parsed.layout.spec_width() == width,
            parsed.layout.spec_height() == height,
            tail_ok(pending.events@, parsed.next as int) == tail_ok(pending.events@, i as int),
        decreases n - i,
    {
        match &pending.events[i] {
            Event::DocEnd => {
                return Ok(
                    LoadedAtlas {
                        atlas: XMLTextureAtlas::new(parsed.names),
                        layout: parsed.layout,
                        warnings: parsed.warnings,
                    },
                );
            },
            Event::Malformed => {
                return Err(AtlasError::Markup);
            },
            _ => {},
        }
        i = i + 1;
    }
    Err(AtlasError::Markup)
}

/// The distinct names among the valid sub-texture children of an atlas
/// element, from position `i` up to the matching end tag.
pub open spec fn sub_names(events: Seq<Event>, i: int, parent: Seq<char>) -> Set<Seq<char>>
    decreases events.len() - i,
{
    if i < 0 || i >= events.len() {
        Set::empty()
    } else {
        match events[i] {
            Event::Malformed => Set::empty(),
            Event::DocEnd => Set::empty(),
            Event::End { name } => if name@ == parent {
                Set::empty()
            } else {
                sub_names(events, i + 1, parent)
            },
            Event::Other => sub_names(events, i + 1, parent),
            Event::Start { name, attrs } => if name@ == "SubTexture"@ {
                match sub_entry(attrs@) {
                    Result::Ok((nm, r)) => sub_names(events, i + 1, parent).insert(nm),
                    Result::Err(e) => Set::empty(),
                }
            } else {
                sub_names(events, i + 1, parent)
            },
        }
    }
}

/// The rectangle of the last valid sub-texture child carrying a name, if
/// any, from position `i` up to the matching end tag.
pub open spec fn last_rect_of(events: Seq<Event>, i: int, parent: Seq<char>, nm: Seq<char>)
    -> Option<Rect>
    decreases events.len() - i,
{
    if i < 0 || i >= events.len() {
        Option::None
    } else {
        match events[i] {
            Event::Malformed => Option::None,
            Event::DocEnd => Option::None,
            Event::End { name } => if name@ == parent {
                Option::None
            } else {
                last_rect_of(events, i + 1, parent, nm)
            },
            Event::Other => last_rect_of(events, i + 1, parent, nm),
            Event::Start { name, attrs } => if name@ == "SubTexture"@ {
                match sub_entry(attrs@) {
                    Result::Ok((n2, r)) => {
                        let rest = last_rect_of(events, i + 1, parent, nm);
                        if rest is Some {
                            rest
                        } else if n2 == nm {
                            Option::Some(r)
                        } else {
                            Option::None
                        }
                    },
                    Result::Err(e) => Option::None,
                }
            } else {
                last_rect_of(events, i + 1, parent, nm)
            },
        }
    }
}

proof fn lemma_build_dom_general(
    events: Seq<Event>,
    i: int,
    parent: Seq<char>,
    rects: Seq<Rect>,
    names: Map<Seq<char>, usize>,
    warns: Seq<Seq<char>>,
)
    requires
        names.dom().finite(),
    ensures
        build_from(events, i, parent, rects, names, warns) matches BuildOut::Done { names: n2, .. }
            ==> n2.dom() =~= names.dom().union(sub_names(events, i, parent))
            && n2.dom().finite(),
    decreases events.len() - i,
{
    if 0 <= i < events.len() {
        match events[i] {
            Event::Malformed => {},
            Event::DocEnd => {},
            Event::End { name } => {
                if name@ == parent {
                    assert(names.dom() =~= names.dom().union(Set::empty()));
                } else {
                    lemma_build_dom_general(events, i + 1, parent, rects, names, warns);
                }
            },
            Event::Other => {
                lemma_build_dom_general(events, i + 1, parent, rects, names, warns);
            },
            Event::Start { name, attrs } => {
                if name@ == "SubTexture"@ {
                    match sub_entry(attrs@) {
                        Result::Ok((nm, r)) => {
                            let names2 = names.insert(nm, rects.len() as usize);
                            assert(names2.dom() =~= names.dom().insert(nm));
                            lemma_build_dom_general(
                                events,
                                i + 1,
                                parent,
                                rects.push(r),
                                names2,
                                warns,
                            );
                            let out = build_from(events, i, parent, rects, names, warns);
                            if out is Done {
                                assert(out->Done_names.dom() =~= names.dom().union(
                                    sub_names(events, i, parent),
                                ));
                            }
                        },
                        Result::Err(e) => {},
                    }
                } else {
                    lemma_build_dom_general(events, i + 1, parent, rects, names, warns.push(name@));
                }
            },
        }
    }
}

/// For every successfully parsed atlas element, the mapping has exactly
/// one entry per distinct name among its valid sub-texture children:
/// duplicate names collapse to one entry.
pub proof fn lemma_name_count(events: Seq<Event>, i: int, parent: Seq<char>)
    ensures
        build_from(events, i, parent, Seq::empty(), Map::empty(), Seq::empty())
            matches BuildOut::Done { names, .. } ==> names.dom() =~= sub_names(events, i, parent)
            && names.dom().finite() && names.dom().len() == sub_names(events, i, parent).len(),
{
    let empty_names = Map::<Seq<char>, usize>::empty();
    assert(empty_names.dom() =~= Set::<Seq<char>>::empty());
    lemma_build_dom_general(events, i, parent, Seq::empty(), empty_names, Seq::empty());
    let out = build_from(events, i, parent, Seq::empty(), empty_names, Seq::empty());
    if out is Done {
        assert(out->Done_names.dom() =~= Set::<Seq<char>>::empty().union(
            sub_names(events, i, parent),
        ));
        assert(Set::<Seq<char>>::empty().union(sub_names(events, i, parent)) =~= sub_names(
            events,
            i,
            parent,
        ));
    }
}

proof fn lemma_build_rects_general(
    events: Seq<Event>,
    i: int,
    parent: Seq<char>,
    rects: Seq<Rect>,
    names: Map<Seq<char>, usize>,
    warns: Seq<Seq<char>>,
)
    requires
        rects.len() + events.len() - i <= usize::MAX,
        forall|k: Seq<char>| #[trigger] names.contains_key(k) ==> (names[k] as int) < rects.len(),
    ensures
        build_from(events, i, parent, rects, names, warns) matches BuildOut::Done {
            rects: r2,
            names: n2,
            ..
        } ==> {
            &&& r2.len() >= rects.len()
            &&& forall|idx: int| 0 <= idx < rects.len() ==> #[trigger] r2[idx] == rects[idx]
            &&& forall|k: Seq<char>| #[trigger]
                n2.contains_key(k) ==> (n2[k] as int) < r2.len() && match last_rect_of(
                    events,
                    i,
                    parent,
                    k,
                ) {
                    Option::Some(r) => r2[n2[k] as int] == r,
                    Option::None => names.contains_key(k) && n2[k] == names[k],
                }
        },
    decreases events.len() - i,
{
    if 0 <= i < events.len() {
        match events[i] {
            Event::Malformed => {},
            Event::DocEnd => {},
            Event::End { name } => {
                if name@ != parent {
                    lemma_build_rects_general(events, i + 1, parent, rects, names, warns);
                }
            },
            Event::Other => {
                lemma_build_rects_general(events, i + 1, parent, rects, names, warns);
            },
            Event::Start { name, attrs } => {
                if name@ == "SubTexture"@ {
                    match sub_entry(attrs@) {
                        Result::Ok((nm, r)) => {
                            let rects2 = rects.push(r);
                            let names2 = names.insert(nm, rects.len() as usize);
                            assert forall|k: Seq<char>| #[trigger]
                                names2.contains_key(k) implies (names2[k] as int)
                                < rects2.len() by {
                                if k != nm {
                                    assert(names.contains_key(k));
                                }
                            }
                            lemma_build_rects_general(events, i + 1, parent, rects2, names2, warns);
                            let out = build_from(events, i, parent, rects, names, warns);
                            if out is Done {
                                let r2 = out->Done_rects;
                                let n2 = out->Done_names;
                                assert forall|k: Seq<char>| #[trigger]
                                    n2.contains_key(k) implies (n2[k] as int) < r2.len()
                                    && match last_rect_of(events, i, parent, k) {
                                    Option::Some(rr) => r2[n2[k] as int] == rr,
                                    Option::None => names.contains_key(k) && n2[k] == names[k],
                                } by {
                                    let rest = last_rect_of(events, i + 1, parent, k);
                                    if rest is None && k == nm {
                                        assert(names2[k] == rects.len());
                                        assert(r2[rects.len() as int] == rects2[rects.len() as int]);
                                        assert(rects2[rects.len() as int] == r);
                                        assert(last_rect_of(events, i, parent, k)
                                            == Option::Some(r));
                                    }
                                    if rest is None && k != nm {
                                        assert(names2.contains_key(k) ==> names.contains_key(k));
                                    }
                                }
                            }
                        },
                        Result::Err(e) => {},
                    }
                } else {
                    lemma_build_rects_general(
                        events,
                        i + 1,
                        parent,
                        rects,
                        names,
                        warns.push(name@),
                    );
                }
            },
        }
    }
}

/// For every successfully parsed atlas element, every value of the mapping
/// is a valid index into the layout, and the rectangle at that index is
/// exactly the one of the name's last sub-texture occurrence.
pub proof fn lemma_mapping_indices(events: Seq<Event>, i: int, parent: Seq<char>)
    requires
        events.len() <= usize::MAX,
    ensures
        build_from(events, i, parent, Seq::empty(), Map::empty(), Seq::empty())
            matches BuildOut::Done { rects, names, .. } ==> forall|k: Seq<char>| #[trigger]
            names.contains_key(k) ==> (names[k] as int) < rects.len() && last_rect_of(
                events,
                i,
                parent,
                k,
            ) == Option::Some(rects[names[k] as int]),
{
    if i >= 0 {
        lemma_build_rects_general(
            events,
            i,
            parent,
            Seq::empty(),
            Map::empty(),
            Seq::empty(),
        );
    }
    let out = build_from(events, i, parent, Seq::empty(), Map::empty(), Seq::empty());
    if out is Done {
        let r2 = out->Done_rects;
        let n2 = out->Done_names;
        assert forall|k: Seq<char>| #[trigger]
            n2.contains_key(k) implies (n2[k] as int) < r2.len() && last_rect_of(events, i, parent, k)
            == Option::Some(r2[n2[k] as int]) by {
            assert(!Map::<Seq<char>, usize>::empty().contains_key(k));
        }
    }
}

/// The events from position `i` reach the atlas element's end tag without
/// any sub-texture child: only other child elements (which are skipped with
/// a warning), their end tags, and ignorable content stand before it.
pub open spec fn childless(events: Seq<Event>, i: int, parent: Seq<char>) -> bool
    decreases events.len() - i,
{
    0 <= i < events.len() && match events[i] {
        Event::End { name } => name@ == parent || childless(events, i + 1, parent),
        Event::Start { name, attrs } => name@ != "SubTexture"@ && childless(events, i + 1, parent),
        Event::Other => childless(events, i + 1, parent),
        Event::DocEnd => false,
        Event::Malformed => false,
    }
}

proof fn lemma_childless_general(
    events: Seq<Event>,
    i: int,
    parent: Seq<char>,
    rects: Seq<Rect>,
    names: Map<Seq<char>, usize>,
    warns: Seq<Seq<char>>,
)
    requires
        childless(events, i, parent),
    ensures
        build_from(events, i, parent, rects, names, warns) matches BuildOut::Done {
            rects: r2,
            names: n2,
            ..
        } && r2 == rects && n2 == names,
    decreases events.len() - i,
{
    match events[i] {
        Event::End { name } => {
            if name@ != parent {
                lemma_childless_general(events, i + 1, parent, rects, names, warns);
            }
        },
        Event::Other => {
            lemma_childless_general(events, i + 1, parent, rects, names, warns);
        },
        Event::Start { name, attrs } => {
            lemma_childless_general(events, i + 1, parent, rects, names, warns.push(name@));
        },
        Event::DocEnd => {},
        Event::Malformed => {},
    }
}

/// A description whose atlas element has no sub-texture children loads
/// successfully and yields an empty mapping and a zero-length layout.
pub proof fn lemma_childless_empty(events: Seq<Event>, i: int, parent: Seq<char>)
    requires
        childless(events, i, parent),
    ensures
        build_from(events, i, parent, Seq::empty(), Map::empty(), Seq::empty())
            matches BuildOut::Done { rects, names, .. } && rects == Seq::<Rect>::empty()
            && names == Map::<Seq<char>, usize>::empty(),
{
    lemma_childless_general(
        events,
        i,
        parent,
        Seq::empty(),
        Map::empty(),
        Seq::empty(),
    );
}

/// A description with no atlas element at all (for example, only unrelated
/// markup) fails with the no-atlas-found error, provided the document is
/// otherwise well formed to its end.
pub proof fn lemma_no_atlas_found(events: Seq<Event>, i: int, depth: int)
    requires
        tail_ok(events, i),
        forall|j: int|
            i <= j < events.len() ==> !((#[trigger] events[j]) matches Event::Start { name, .. }
                && name@ == "TextureAtlas"@),
    ensures
        find_from(events, i, depth) == (FindOut::Failed { err: LoadErr::NoAtlas }),
    decreases events.len() - i,
{
    match events[i] {
        Event::DocEnd => {},
        Event::Malformed => {},
        Event::Start { name, attrs } => {
            assert(!(events[i] matches Event::Start { name, .. } && name@ == "TextureAtlas"@));
            lemma_no_atlas_found(events, i + 1, depth + 1);
        },
        Event::End { name } => {
            lemma_no_atlas_found(
                events,
                i + 1,
                if depth > 0 {
                    depth - 1
                } else {
                    0
                },
            );
        },
        Event::Other => {
            lemma_no_atlas_found(events, i + 1, depth);
        },
    }
}

} // verus!
