use vstd::prelude::*;

use crate::namespace::{decode_spec, str_eq, DecodeError, DecodeErrorView, Namespace,
    NamespaceView};
use crate::payload::clone_values;
use serde_json::Value;

verus! {

/// Closed set of kinds a drop entry may have.
#[derive(Debug, Clone, Copy, PartialEq, Eq, Structural)]
pub enum DropType {
    Item,
    Tag,
    LootTable,
    Group,
    Alternatives,
    Sequence,
    Dynamic,
    Empty,
}

impl Default for DropType {
    /// The default kind is `Item`.
    fn default() -> (r: DropType)
        ensures
            r == DropType::Item,
    {
        DropType::Item
    }
}

/// Kinds whose structural recursion must be acknowledged explicitly by
/// the author: exactly `Group`, `Alternatives` and `Sequence`.
pub open spec fn is_unsafe_spec(kind: DropType) -> bool {
    kind == DropType::Group || kind == DropType::Alternatives || kind == DropType::Sequence
}

/// Kind named by a decoded namespace: the prefix must be "minecraft" and
/// the suffix one of the eight fixed names.
pub open spec fn drop_type_of(ns: NamespaceView) -> Option<DropType> {
    if ns.prefix != "minecraft"@ {
        None
    } else if ns.suffix == "item"@ {
        Some(DropType::Item)
    } else if ns.suffix == "tag"@ {
        Some(DropType::Tag)
    } else if ns.suffix == "loot_table"@ {
        Some(DropType::LootTable)
    } else if ns.suffix == "group"@ {
        Some(DropType::Group)
    } else if ns.suffix == "alternatives"@ {
        Some(DropType::Alternatives)
    } else if ns.suffix == "sequence"@ {
        Some(DropType::Sequence)
    } else if ns.suffix == "dynamic"@ {
        Some(DropType::Dynamic)
    } else if ns.suffix == "empty"@ {
        Some(DropType::Empty)
    } else {
        None
    }
}

/// Outcome of resolving a raw type string: decode it, then look the
/// decoded namespace up in the fixed table.
pub open spec fn get_drop_type_spec(s: Seq<char>) -> Result<DropType, DropTypeErrorView> {
    match decode_spec(s) {
        Err(e) => Err(DropTypeErrorView::Decode(e)),
        Ok(ns) => match drop_type_of(ns) {
            Some(k) => Ok(k),
            None => Err(DropTypeErrorView::InvalidType(s)),
        },
    }
}

/// Error rejecting a raw type string or an ill-declared drop entry.
#[derive(Debug, PartialEq)]
pub enum DropTypeError {
    /// The type string is not a well-formed namespace.
    DecodeError(DecodeError),
    /// The declared unsafe flag does not equal the kind's fixed
    /// classification; carries the raw type string.
    NotAllow(String),
    /// The namespace names no known kind; carries the raw type string.
    InvalidType(String),
}

/// Mathematical value of a `DropTypeError`.
#[verifier::ext_equal]
pub enum DropTypeErrorView {
    Decode(DecodeErrorView),
    NotAllow(Seq<char>),
    InvalidType(Seq<char>),
}

impl View for DropTypeError {
    type V = DropTypeErrorView;

    open spec fn view(&self) -> DropTypeErrorView {
        match self {
            DropTypeError::DecodeError(e) => DropTypeErrorView::Decode(e@),
            DropTypeError::NotAllow(v) => DropTypeErrorView::NotAllow(v@),
            DropTypeError::InvalidType(v) => DropTypeErrorView::InvalidType(v@),
        }
    }
}

impl DropType {
    /// Resolve a raw type string to a kind.
    pub fn get_drop_type(value: &str) -> (r: Result<DropType, DropTypeError>)
        ensures
            match r {
                Ok(k) => get_drop_type_spec(value@) == Ok::<DropType, DropTypeErrorView>(k),
                Err(e) => get_drop_type_spec(value@) == Err::<DropType, DropTypeErrorView>(e@),
            },
    {
        let ns = match Namespace::decode(value) {
            Ok(ns) => ns,
            Err(e) => {
                return Err(DropTypeError::DecodeError(e));
            },
        };
        if !str_eq(ns.prefix.as_str(), "minecraft") {
            return Err(DropTypeError::InvalidType(value.to_owned()));
        }
        let sfx: &str = ns.suffix.as_str();
        if str_eq(sfx, "item") {
            Ok(DropType::Item)
        } else if str_eq(sfx, "tag") {
            Ok(DropType::Tag)
        } else if str_eq(sfx, "loot_table") {
            Ok(DropType::LootTable)
        } else if str_eq(sfx, "group") {
            Ok(DropType::Group)
        } else if str_eq(sfx, "alternatives") {
            Ok(DropType::Alternatives)
        } else if str_eq(sfx, "sequence") {
            Ok(DropType::Sequence)
        } else if str_eq(sfx, "dynamic") {
            Ok(DropType::Dynamic)
        } else if str_eq(sfx, "empty") {
            Ok(DropType::Empty)
        } else {
            Err(DropTypeError::InvalidType(value.to_owned()))
        }
    }
}

/// Untyped shape of one drop entry, as decoded from script text.
#[derive(Debug)]
pub struct DropFormat {
    /// Declared acknowledgment of an unsafe kind; absent means false.
    pub unsafe_flag: Option<bool>,
    /// Raw type string of the entry.
    pub kind: String,
    /// Leaf reference.
    pub name: Option<String>,
    /// Child entries of a composite kind.
    pub children: Option<Vec<DropFormat>>,
    /// Opaque function payloads.
    pub functions: Option<Vec<Value>>,
    /// Opaque condition payloads.
    pub conditions: Option<Vec<Value>>,
}

/// Mathematical value of a `DropFormat`.
#[verifier::ext_equal]
pub struct DropFormatView {
    pub unsafe_flag: Option<bool>,
    pub kind: Seq<char>,
    pub name: Option<Seq<char>>,
    pub children: Option<Seq<DropFormatView>>,
    pub functions: Option<Seq<Value>>,
    pub conditions: Option<Seq<Value>>,
}

pub open spec fn opt_string_view(s: Option<String>) -> Option<Seq<char>> {
    match s {
        Some(v) => Some(v@),
        None => None,
    }
}

pub open spec fn opt_values_view(v: Option<Vec<Value>>) -> Option<Seq<Value>> {
    match v {
        Some(vs) => Some(vs@),
        None => None,
    }
}

/// View of a drop format, entry by entry.
pub open spec fn drop_format_view(f: DropFormat) -> DropFormatView
    decreases f,
{
    DropFormatView {
        unsafe_flag: f.unsafe_flag,
        kind: f.kind@,
        name: opt_string_view(f.name),
        children: if f.children is Some {
            Some(drop_formats_view(f.children->Some_0@))
        } else {
            None
        },
        functions: opt_values_view(f.functions),
        conditions: opt_values_view(f.conditions),
    }
}

pub open spec fn drop_formats_view(fs: Seq<DropFormat>) -> Seq<DropFormatView>
    decreases fs,
{
    if fs.len() == 0 {
        Seq::empty()
    } else {
        seq![drop_format_view(fs[0])] + drop_formats_view(fs.subrange(1, fs.len() as int))
    }
}

impl View for DropFormat {
    type V = DropFormatView;

    open spec fn view(&self) -> DropFormatView {
        drop_format_view(*self)
    }
}

pub proof fn lemma_drop_formats_view_len(fs: Seq<DropFormat>)
    ensures
        drop_formats_view(fs).len() == fs.len(),
    decreases fs.len(),
{
    if fs.len() > 0 {
        lemma_drop_formats_view_len(fs.subrange(1, fs.len() as int));
    }
}

pub proof fn lemma_drop_formats_view_index(fs: Seq<DropFormat>, i: int)
    requires
        0 <= i < fs.len(),
    ensures
        drop_formats_view(fs)[i] == drop_format_view(fs[i]),
    decreases fs.len(),
{
    lemma_drop_formats_view_len(fs);
    lemma_drop_formats_view_len(fs.subrange(1, fs.len() as int));
    if i > 0 {
        lemma_drop_formats_view_index(fs.subrange(1, fs.len() as int), i - 1);
    }
}

/// One typed pool entry or composite child.
#[derive(Debug, PartialEq)]
pub struct MeguDrop {
    /// Kind of the entry.
    pub kind: DropType,
    /// Leaf reference.
    pub name: Option<String>,
    /// Child drops of a composite kind.
    pub children: Option<Vec<MeguDrop>>,
    /// Opaque condition payloads, order kept.
    pub conditions: Vec<Value>,
    /// Opaque function payloads, order kept.
    pub functions: Vec<Value>,
    /// Declared acknowledgment; equals the kind's fixed classification.
    pub unsafe_flag: bool,
}

/// Mathematical value of a `MeguDrop`.
#[verifier::ext_equal]
pub struct MeguDropView {
    pub kind: DropType,
    pub name: Option<Seq<char>>,
    pub children: Option<Seq<MeguDropView>>,
    pub conditions: Seq<Value>,
    pub functions: Seq<Value>,
    pub unsafe_flag: bool,
}

/// View of a drop, child by child.
pub open spec fn drop_view(d: MeguDrop) -> MeguDropView
    decreases d,
{
    MeguDropView {
        kind: d.kind,
        name: opt_string_view(d.name),
        children: if d.children is Some {
            Some(drops_view(d.children->Some_0@))
        } else {
            None
        },
        conditions: d.conditions@,
        functions: d.functions@,
        unsafe_flag: d.unsafe_flag,
    }
}

pub open spec fn drops_view(ds: Seq<MeguDrop>) -> Seq<MeguDropView>
    decreases ds,
{
    if ds.len() == 0 {
        Seq::empty()
    } else {
        seq![drop_view(ds[0])] + drops_view(ds.subrange(1, ds.len() as int))
    }
}

impl View for MeguDrop {
    type V = MeguDropView;

    open spec fn view(&self) -> MeguDropView {
        drop_view(*self)
    }
}

pub open spec fn opt_drops_view(c: Option<Vec<MeguDrop>>) -> Option<Seq<MeguDropView>> {
    if c is Some {
        Some(drops_view(c->Some_0@))
    } else {
        None
    }
}

pub proof fn lemma_drops_view_len(ds: Seq<MeguDrop>)
    ensures
        drops_view(ds).len() == ds.len(),
    decreases ds.len(),
{
    if ds.len() > 0 {
        lemma_drops_view_len(ds.subrange(1, ds.len() as int));
    }
}

pub proof fn lemma_drops_view_index(ds: Seq<MeguDrop>, i: int)
    requires
        0 <= i < ds.len(),
    ensures
        drops_view(ds)[i] == drop_view(ds[i]),
    decreases ds.len(),
{
    lemma_drops_view_len(ds);
    lemma_drops_view_len(ds.subrange(1, ds.len() as int));
    if i > 0 {
        lemma_drops_view_index(ds.subrange(1, ds.len() as int), i - 1);
    }
}

/// Appending a drop at the end extends the view by that drop's view.
pub proof fn lemma_drops_view_push(ds: Seq<MeguDrop>, d: MeguDrop)
    ensures
        drops_view(ds.push(d)) == drops_view(ds) + seq![drop_view(d)],
    decreases ds.len(),
{
    if ds.len() == 0 {
        assert(ds.push(d).subrange(1, 1) =~= Seq::<MeguDrop>::empty());
        assert(drops_view(Seq::<MeguDrop>::empty()) == Seq::<MeguDropView>::empty());
        assert(ds.push(d)[0] == d);
        assert(drops_view(ds.push(d)) =~= drops_view(ds) + seq![drop_view(d)]);
    } else {
        let sub = ds.subrange(1, ds.len() as int);
        assert(ds.push(d).subrange(1, ds.len() as int + 1) =~= sub.push(d));
        lemma_drops_view_push(sub, d);
        lemma_drops_view_len(sub);
        lemma_drops_view_len(ds);
        assert(ds.push(d)[0] == ds[0]);
        assert(drops_view(ds.push(d)) == seq![drop_view(ds[0])] + drops_view(sub.push(d)));
        assert(drops_view(ds) == seq![drop_view(ds[0])] + drops_view(sub));
        assert(drops_view(ds.push(d)) =~= drops_view(ds) + seq![drop_view(d)]);
    }
}

/// Typed children built from optional untyped children.
pub open spec fn children_from_format_spec(c: Option<Seq<DropFormatView>>) -> Result<
    Option<Seq<MeguDropView>>,
    DropTypeErrorView,
> {
    if c is Some {
        match drops_from_formats_spec(c->Some_0) {
            Err(e) => Err(e),
            Ok(ds) => Ok(Some(ds)),
        }
    } else {
        Ok(None)
    }
}

/// Typed drop built from an untyped entry: resolve the kind, build the
/// children fail-fast in order, then require the declared unsafe flag to
/// equal the kind's fixed classification in both directions.
pub open spec fn drop_from_format_spec(f: DropFormatView) -> Result<
    MeguDropView,
    DropTypeErrorView,
>
    decreases f,
{
    match get_drop_type_spec(f.kind) {
        Err(e) => Err(e),
        Ok(kind) => {
            let built: Result<Option<Seq<MeguDropView>>, DropTypeErrorView> = if f
                .children is Some {
                match drops_from_formats_spec(f.children->Some_0) {
                    Err(e) => Err(e),
                    Ok(ds) => Ok(Some(ds)),
                }
            } else {
                Ok(None)
            };
            match built {
                Err(e) => Err(e),
                Ok(children) => {
                    let declared = match f.unsafe_flag {
                        Some(b) => b,
                        None => false,
                    };
                    if declared != is_unsafe_spec(kind) {
                        Err(DropTypeErrorView::NotAllow(f.kind))
                    } else {
                        Ok(MeguDropView {
                            kind,
                            name: f.name,
                            children,
                            conditions: match f.conditions {
                                Some(c) => c,
                                None => Seq::empty(),
                            },
                            functions: match f.functions {
                                Some(c) => c,
                                None => Seq::empty(),
                            },
                            unsafe_flag: declared,
                        })
                    }
                },
            }
        },
    }
}

/// Typed drops built from untyped entries in order; the first failure
/// aborts the whole list.
pub open spec fn drops_from_formats_spec(fs: Seq<DropFormatView>) -> Result<
    Seq<MeguDropView>,
    DropTypeErrorView,
>
    decreases fs,
{
    if fs.len() == 0 {
        Ok(Seq::empty())
    } else {
        match drop_from_format_spec(fs[0]) {
            Err(e) => Err(e),
            Ok(d) => match drops_from_formats_spec(fs.subrange(1, fs.len() as int)) {
                Err(e) => Err(e),
                Ok(ds) => Ok(seq![d] + ds),
            },
        }
    }
}

impl MeguDrop {
    /// Build a drop directly from already-validated parts, without check.
    pub fn new(
        kind: DropType,
        name: Option<String>,
        children: Option<Vec<MeguDrop>>,
        conditions: Vec<Value>,
        functions: Vec<Value>,
        unsafe_flag: bool,
    ) -> (r: MeguDrop)
        ensures
            r@ == (MeguDropView {
                kind,
                name: opt_string_view(name),
                children: opt_drops_view(children),
                conditions: conditions@,
                functions: functions@,
                unsafe_flag,
            }),
    {
        MeguDrop { kind, name, children, conditions, functions, unsafe_flag }
    }

    /// True exactly when `kind` requires the explicit acknowledgment.
    pub fn is_unsafe(kind: DropType) -> (r: bool)
        ensures
            r == is_unsafe_spec(kind),
    {
        match kind {
            DropType::Alternatives | DropType::Group | DropType::Sequence => true,
            _ => false,
        }
    }

    /// Build a typed drop from an untyped entry.
    pub fn from_drop_format(format: &DropFormat) -> (r: Result<MeguDrop, DropTypeError>)
        ensures
            match r {
                Ok(d) => drop_from_format_spec(format@) == Ok::<
                    MeguDropView,
                    DropTypeErrorView,
                >(d@),
                Err(e) => drop_from_format_spec(format@) == Err::<
                    MeguDropView,
                    DropTypeErrorView,
                >(e@),
            },
        decreases *format,
    {
        let kind = match DropType::get_drop_type(format.kind.as_str()) {
            Ok(k) => k,
            Err(e) => {
                return Err(e);
            },
        };
        let children = match Self::get_children(&format.children) {
            Ok(c) => c,
            Err(e) => {
                return Err(e);
            },
        };
        let declared = match format.unsafe_flag {
            Some(b) => b,
            None => false,
        };
        if declared != MeguDrop::is_unsafe(kind) {
            return Err(DropTypeError::NotAllow(format.kind.clone()));
        }
        let name = match &format.name {
            Some(n) => Some(n.clone()),
            None => None,
        };
        let conditions = match &format.conditions {
            Some(v) => clone_values(v),
            None => Vec::new(),
        };
        let functions = match &format.functions {
            Some(v) => clone_values(v),
            None => Vec::new(),
        };
        Ok(MeguDrop { kind, name, children, conditions, functions, unsafe_flag: declared })
    }

    /// Build each child entry, failing on the first invalid one.
    fn get_children(format: &Option<Vec<DropFormat>>) -> (r: Result<
        Option<Vec<MeguDrop>>,
        DropTypeError,
    >)
        ensures
            match r {
                Ok(c) => children_from_format_spec(opt_formats_view(*format)) == Ok::<
                    Option<Seq<MeguDropView>>,
                    DropTypeErrorView,
                >(opt_drops_view(c)),
                Err(e) => children_from_format_spec(opt_formats_view(*format)) == Err::<
                    Option<Seq<MeguDropView>>,
                    DropTypeErrorView,
                >(e@),
            },
        decreases *format,
    {
        match format {
            None => Ok(None),
            Some(cs) => {
                let ghost fv = drop_formats_view(cs@);
                let mut out: Vec<MeguDrop> = Vec::new();
                let mut i: usize = 0;
                proof {
                    lemma_drop_formats_view_len(cs@);
                    assert(fv.subrange(0, fv.len() as int) =~= fv);
                }
                while i < cs.len()
                    invariant
                        i <= cs@.len(),
                        fv == drop_formats_view(cs@),
                        fv.len() == cs@.len(),
                        *format is Some,
                        cs@ == format->Some_0@,
                        out@.len() == i,
                        drops_from_formats_spec(fv) == (match drops_from_formats_spec(
                            fv.subrange(i as int, fv.len() as int),
                        ) {
                            Err(e) => Err::<Seq<MeguDropView>, DropTypeErrorView>(e),
                            Ok(rest) => Ok(drops_view(out@) + rest),
                        }),
                    decreases cs@.len() - i,
                {
                    proof {
                        assert(decreases_to!(*format => format->Some_0@[i as int]));
                        assert(format->Some_0@[i as int] == cs@[i as int]);
                        lemma_drop_formats_view_index(cs@, i as int);
                        assert(fv.subrange(i as int, fv.len() as int)[0] == fv[i as int]);
                        assert(fv.subrange(i as int, fv.len() as int).subrange(
                            1,
                            fv.len() - i,
                        ) =~= fv.subrange(i as int + 1, fv.len() as int));
                    }
                    let d = match MeguDrop::from_drop_format(&cs[i]) {
                        Ok(d) => d,
                        Err(e) => {
                            return Err(e);
                        },
                    };
                    let ghost out_old = out@;
                    out.push(d);
                    proof {
                        lemma_drops_view_push(out_old, d);
                        let sub_n = fv.subrange(i as int + 1, fv.len() as int);
                        if drops_from_formats_spec(sub_n) is Ok {
                            let rest2 = drops_from_formats_spec(sub_n)->Ok_0;
                            assert(drops_view(out_old) + (seq![drop_view(d)] + rest2)
                                =~= drops_view(out@) + rest2);
                        }
                    }
                    i = i + 1;
                }
                proof {
                    assert(fv.subrange(i as int, fv.len() as int) =~= Seq::<
                        DropFormatView,
                    >::empty());
                    assert(drops_view(out@) + Seq::<MeguDropView>::empty() =~= drops_view(out@));
                }
                Ok(Some(out))
            },
        }
    }

    /// Copy of this drop with the same mathematical value.
    pub fn duplicate(&self) -> (r: MeguDrop)
        ensures
            r@ == self@,
        decreases *self,
    {
        let children = match &self.children {
            None => None,
            Some(cs) => {
                let mut out: Vec<MeguDrop> = Vec::new();
                let mut i: usize = 0;
                proof {
                    lemma_drops_view_len(cs@);
                }
                while i < cs.len()
                    invariant
                        i <= cs@.len(),
                        self.children is Some,
                        cs@ == self.children->Some_0@,
                        out@.len() == i,
                        drops_view(out@) == drops_view(cs@).subrange(0, i as int),
                    decreases cs@.len() - i,
                {
                    proof {
                        assert(decreases_to!(*self => self.children->Some_0@[i as int]));
                        assert(self.children->Some_0@[i as int] == cs@[i as int]);
                    }
                    let d = cs[i].duplicate();
                    let ghost out_old = out@;
                    out.push(d);
                    proof {
                        lemma_drops_view_push(out_old, d);
                        lemma_drops_view_index(cs@, i as int);
                        lemma_drops_view_len(cs@);
                        assert(drops_view(cs@).subrange(0, i as int).push(drop_view(cs@[i as int]))
                            =~= drops_view(cs@).subrange(0, i + 1));
                    }
                    i = i + 1;
                }
                proof {
                    lemma_drops_view_len(cs@);
                    assert(drops_view(cs@).subrange(0, cs@.len() as int) =~= drops_view(cs@));
                }
                Some(out)
            },
        };
        let r = MeguDrop {
            kind: self.kind,
            name: match &self.name {
                Some(n) => Some(n.clone()),
                None => None,
            },
            children,
            conditions: clone_values(&self.conditions),
            functions: clone_values(&self.functions),
            unsafe_flag: self.unsafe_flag,
        };
        proof {
            assert(r@ =~= self@);
        }
        r
    }
}

/// Optional untyped children, viewed.
pub open spec fn opt_formats_view(c: Option<Vec<DropFormat>>) -> Option<Seq<DropFormatView>> {
    if c is Some {
        Some(drop_formats_view(c->Some_0@))
    } else {
        None
    }
}

/// Appending a format at the end extends the view by that format's view.
pub proof fn lemma_drop_formats_view_push(fs: Seq<DropFormat>, f: DropFormat)
    ensures
        drop_formats_view(fs.push(f)) == drop_formats_view(fs) + seq![drop_format_view(f)],
    decreases fs.len(),
{
    if fs.len() == 0 {
        assert(fs.push(f).subrange(1, 1) =~= Seq::<DropFormat>::empty());
        assert(drop_formats_view(Seq::<DropFormat>::empty()) == Seq::<DropFormatView>::empty());
        assert(fs.push(f)[0] == f);
        assert(drop_formats_view(fs.push(f)) =~= drop_formats_view(fs) + seq![drop_format_view(
            f,
        )]);
    } else {
        let sub = fs.subrange(1, fs.len() as int);
        assert(fs.push(f).subrange(1, fs.len() as int + 1) =~= sub.push(f));
        lemma_drop_formats_view_push(sub, f);
        lemma_drop_formats_view_len(sub);
        lemma_drop_formats_view_len(fs);
        assert(fs.push(f)[0] == fs[0]);
        assert(drop_formats_view(fs.push(f)) == seq![drop_format_view(fs[0])]
            + drop_formats_view(sub.push(f)));
        assert(drop_formats_view(fs) == seq![drop_format_view(fs[0])] + drop_formats_view(sub));
        assert(drop_formats_view(fs.push(f)) =~= drop_formats_view(fs) + seq![drop_format_view(
            f,
        )]);
    }
}

impl DropFormat {
    /// Copy of this format with the same mathematical value.
    pub fn duplicate(&self) -> (r: DropFormat)
        ensures
            r@ == self@,
        decreases *self,
    {
        let children = match &self.children {
            None => None,
            Some(cs) => {
                let mut out: Vec<DropFormat> = Vec::new();
                let mut i: usize = 0;
                proof {
                    lemma_drop_formats_view_len(cs@);
                }
                while i < cs.len()
                    invariant
                        i <= cs@.len(),
                        self.children is Some,
                        cs@ == self.children->Some_0@,
                        out@.len() == i,
                        drop_formats_view(out@) == drop_formats_view(cs@).subrange(0, i as int),
                    decreases cs@.len() - i,
                {
                    proof {
                        assert(decreases_to!(*self => self.children->Some_0@[i as int]));
                        assert(self.children->Some_0@[i as int] == cs@[i as int]);
                    }
                    let f = cs[i].duplicate();
                    let ghost out_old = out@;
                    out.push(f);
                    proof {
                        lemma_drop_formats_view_push(out_old, f);
                        lemma_drop_formats_view_index(cs@, i as int);
                        lemma_drop_formats_view_len(cs@);
                        assert(drop_formats_view(cs@).subrange(0, i as int).push(
                            drop_format_view(cs@[i as int]),
                        ) =~= drop_formats_view(cs@).subrange(0, i + 1));
                    }
                    i = i + 1;
                }
                proof {
                    lemma_drop_formats_view_len(cs@);
                    assert(drop_formats_view(cs@).subrange(0, cs@.len() as int)
                        =~= drop_formats_view(cs@));
                }
                Some(out)
            },
        };
        let r = DropFormat {
            unsafe_flag: self.unsafe_flag,
            kind: self.kind.clone(),
            name: match &self.name {
                Some(n) => Some(n.clone()),
                None => None,
            },
            children,
            functions: match &self.functions {
                Some(v) => Some(clone_values(v)),
                None => None,
            },
            conditions: match &self.conditions {
                Some(v) => Some(clone_values(v)),
                None => None,
            },
        };
        proof {
            assert(r@ =~= self@);
        }
        r
    }
}

} // verus!
