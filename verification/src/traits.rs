//! What a data object has to declare so that the engine can drive its shader.

use vstd::prelude::*;
use vstd::string::StringExecFns;

verus! {

/// Identity of an asset (a shader source or an image) in the owner's store.
#[derive(Copy, Clone, Debug, PartialEq, Eq, Hash, Structural)]
pub enum AssetId {
    /// A slot of the store, with the slot's generation in the upper half.
    Index(u64),
    /// A stable identifier chosen by the application.
    Uuid(u128),
}

/// Where the shader source of a data object comes from.
#[derive(Debug, PartialEq, Eq)]
pub enum ShaderRef {
    /// No shader was named.
    Default,
    /// A shader that is already in the store.
    Handle(AssetId),
    /// A path from which the shader is loaded.
    Path(String),
}

impl ShaderRef {
    /// The identity of the shader, where it is known without loading.
    pub fn handle(&self) -> (id: Option<AssetId>)
        ensures
            id == match *self {
                ShaderRef::Handle(h) => Some(h),
                _ => None::<AssetId>,
            },
    {
        match self {
            ShaderRef::Handle(h) => Some(*h),
            _ => None,
        }
    }
}

/// A definition that is handed to the shader preprocessor under a name.
#[derive(Debug, PartialEq, Eq)]
pub enum ShaderDefVal {
    Bool(String, bool),
    Int(String, i32),
    UInt(String, u32),
}

/// What a [`ShaderDefVal`] holds.
pub enum ShaderDefValView {
    Bool(Seq<char>, bool),
    Int(Seq<char>, i32),
    UInt(Seq<char>, u32),
}

impl View for ShaderDefVal {
    type V = ShaderDefValView;

    open spec fn view(&self) -> ShaderDefValView {
        match *self {
            ShaderDefVal::Bool(name, value) => ShaderDefValView::Bool(name@, value),
            ShaderDefVal::Int(name, value) => ShaderDefValView::Int(name@, value),
            ShaderDefVal::UInt(name, value) => ShaderDefValView::UInt(name@, value),
        }
    }
}

/// The views of `defs`, in order.
pub open spec fn shader_def_views(defs: Seq<ShaderDefVal>) -> Seq<ShaderDefValView> {
    defs.map_values(|d: ShaderDefVal| d@)
}

impl Clone for ShaderDefVal {
    fn clone(&self) -> (def: Self)
        ensures
            def@ == self@,
    {
        match self {
            ShaderDefVal::Bool(name, value) => ShaderDefVal::Bool(name.clone(), *value),
            ShaderDefVal::Int(name, value) => ShaderDefVal::Int(name.clone(), *value),
            ShaderDefVal::UInt(name, value) => ShaderDefVal::UInt(name.clone(), *value),
        }
    }
}

impl ShaderDefVal {
    /// Whether `other` defines the same name as the same value.
    pub fn same(&self, other: &ShaderDefVal) -> (same: bool)
        ensures
            same == (self@ == other@),
    {
        match (self, other) {
            (ShaderDefVal::Bool(a, x), ShaderDefVal::Bool(b, y)) => *x == *y && same_name(
                a.as_str(),
                b.as_str(),
            ),
            (ShaderDefVal::Int(a, x), ShaderDefVal::Int(b, y)) => *x == *y && same_name(
                a.as_str(),
                b.as_str(),
            ),
            (ShaderDefVal::UInt(a, x), ShaderDefVal::UInt(b, y)) => *x == *y && same_name(
                a.as_str(),
                b.as_str(),
            ),
            _ => false,
        }
    }
}

/// A range of the push constants, and the shader stages that see it, as a
/// set of bits.
#[derive(Copy, Clone, Debug, PartialEq, Eq, Structural)]
pub struct PushConstantRange {
    pub stages: u32,
    pub start: u32,
    pub end: u32,
}

/// The names in `entries`, each as a sequence of characters.
pub open spec fn entry_names(entries: Seq<&'static str>) -> Seq<Seq<char>> {
    entries.map_values(|e: &'static str| e@)
}

/// A compute shader: its source and the entry points it declares.
pub trait ComputeShader {
    /// The shader source.
    fn shader() -> ShaderRef;

    /// The definitions that the shader is preprocessed with; none by
    /// default.
    fn shader_defs() -> Vec<ShaderDefVal> {
        Vec::new()
    }

    /// The ranges of push constants that the shader uses; none by default.
    fn push_constant_ranges() -> Vec<PushConstantRange> {
        Vec::new()
    }

    /// The entry points that the shader declares, in pipeline order.  There
    /// has to be at least one.  By default the one entry point is `main`.
    /// The engine asks once, when it queues the pipelines, and keeps the
    /// answer.
    fn entry_points() -> (entries: Vec<&'static str>)
        ensures
            entries@.len() > 0,
    {
        vec!["main"]
    }
}

/// Everything the engine asks of a data object.
pub trait ComputeTrait: ComputeShader + Clone + Sized {}

impl<T> ComputeTrait for T where T: ComputeShader + Clone + Sized {}

/// Whether two names are the same.
pub(crate) fn same_name(a: &str, b: &str) -> (same: bool)
    ensures
        same == (a@ == b@),
{
    String::from_str(a) == String::from_str(b)
}

/// The position of the first of `entries` that is `name`.
pub open spec fn entry_index(entries: Seq<Seq<char>>, name: Seq<char>) -> Option<int>
    decreases entries.len(),
{
    if entries.len() == 0 {
        None
    } else if entries.first() == name {
        Some(0)
    } else {
        match entry_index(entries.drop_first(), name) {
            Some(i) => Some(i + 1),
            None => None,
        }
    }
}

/// [`entry_index`] gives the least position at which `name` stands, and none
/// exactly if `name` is not among `entries`.
pub proof fn lemma_entry_index(entries: Seq<Seq<char>>, name: Seq<char>)
    ensures
        match entry_index(entries, name) {
            Some(i) => {
                &&& 0 <= i < entries.len()
                &&& entries[i] == name
                &&& forall|j: int| 0 <= j < i ==> entries[j] != name
            },
            None => forall|j: int| 0 <= j < entries.len() ==> entries[j] != name,
        },
        entry_index(entries, name) is Some == entries.contains(name),
    decreases entries.len(),
{
    if entries.len() > 0 && entries.first() != name {
        let rest = entries.drop_first();
        lemma_entry_index(rest, name);
        assert forall|j: int| 0 <= j < entries.len() implies (entries[j] == name) == (j > 0
            && rest[j - 1] == name) by {}
        match entry_index(rest, name) {
            Some(i) => {
                assert(entries[i + 1] == rest[i]);
            },
            None => {},
        }
    }
}

/// Finds the first of `entries` that is named `name`.
pub fn find_entry(entries: &Vec<&'static str>, name: &str) -> (position: Option<usize>)
    ensures
        match position {
            Some(i) => entry_index(entry_names(entries@), name@) == Some(i as int),
            None => entry_index(entry_names(entries@), name@) is None,
        },
        position is Some == entry_names(entries@).contains(name@),
{
    let ghost names = entry_names(entries@);
    let mut i: usize = 0;
    while i < entries.len()
        invariant
            i <= entries@.len(),
            names == entry_names(entries@),
            forall|j: int| 0 <= j < i ==> names[j] != name@,
        decreases entries.len() - i,
    {
        assert(names[i as int] == entries@[i as int]@);
        if same_name(entries[i], name) {
            proof {
                lemma_entry_index(names, name@);
            }
            return Some(i);
        }
        i += 1;
    }
    proof {
        lemma_entry_index(names, name@);
    }
    None
}

} // verus!
