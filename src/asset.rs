use vstd::prelude::*;

verus! {

/// The kind of an asset, deduced from the extension of its file.
#[derive(Clone, Copy, Debug, PartialEq, Eq, Structural)]
pub enum AssetType {
    /// The type is not known and is unsupported.
    Untyped,
    /// An image.
    Image,
}

/// The extension, without a leading dot, that marks an image.
pub open spec fn image_extension() -> Seq<char> {
    seq!['p', 'n', 'g']
}

/// The type of a file with extension `ext`: matching is exact and case-sensitive.
pub open spec fn classify(ext: Seq<char>) -> AssetType {
    if ext == image_extension() {
        AssetType::Image
    } else {
        AssetType::Untyped
    }
}

/// Every variant, in declaration order.
pub open spec fn all_types() -> Seq<AssetType> {
    seq![AssetType::Untyped, AssetType::Image]
}

/// The integer that stands for a type in the store: its place in declaration order, from 1.
pub open spec fn code_of(t: AssetType) -> u32 {
    match t {
        AssetType::Untyped => 1,
        AssetType::Image => 2,
    }
}

/// The name under which a type is shown and stored.
pub open spec fn display_name(t: AssetType) -> Seq<char> {
    match t {
        AssetType::Untyped => seq!['U', 'n', 't', 'y', 'p', 'e', 'd'],
        AssetType::Image => seq!['I', 'm', 'a', 'g', 'e'],
    }
}

impl AssetType {
    /// Classifies a file by its extension (case-sensitive, no leading dot).
    pub fn from_extension(extension: String) -> (r: Self)
        ensures
            r == classify(extension@),
    {
        let png = String::from_str("png");
        proof {
            reveal_strlit("png");
            assert(png@ =~= image_extension());
        }
        if extension == png {
            AssetType::Image
        } else {
            AssetType::Untyped
        }
    }

    /// The integer that stands for this type in the store.
    pub fn code(&self) -> (r: u32)
        ensures
            r == code_of(*self),
    {
        match self {
            AssetType::Untyped => 1,
            AssetType::Image => 2,
        }
    }

    /// The type that `code` stands for, if any.
    pub fn from_code(code: u32) -> (r: Option<Self>)
        ensures
            r matches Some(t) ==> code_of(t) == code,
            r is None <==> (forall|t: AssetType| code_of(t) != code),
    {
        if code == 1 {
            Some(AssetType::Untyped)
        } else if code == 2 {
            Some(AssetType::Image)
        } else {
            assert forall|t: AssetType| code_of(t) != code by {
                match t {
                    AssetType::Untyped => {},
                    AssetType::Image => {},
                }
            }
            None
        }
    }

    /// The name under which this type is shown and stored.
    pub fn name(&self) -> (r: String)
        ensures
            r@ == display_name(*self),
    {
        match self {
            AssetType::Untyped => {
                let s = String::from_str("Untyped");
                proof {
                    reveal_strlit("Untyped");
                    assert(s@ =~= display_name(AssetType::Untyped));
                }
                s
            },
            AssetType::Image => {
                let s = String::from_str("Image");
                proof {
                    reveal_strlit("Image");
                    assert(s@ =~= display_name(AssetType::Image));
                }
                s
            },
        }
    }

    /// Every variant, in declaration order.
    pub fn all() -> (r: Vec<AssetType>)
        ensures
            r@ == all_types(),
    {
        let r = vec![AssetType::Untyped, AssetType::Image];
        assert(r@ =~= all_types());
        r
    }
}

/// A directory row: its identifier, base name, and the identifier of the
/// directory that holds it, if that one is indexed.
#[derive(Clone, Debug)]
pub struct DbDirectory {
    pub id: u32,
    pub name: String,
    pub parent: Option<u32>,
}

/// An asset row.
#[derive(Clone, Debug)]
pub struct DbAsset {
    /// Identifier in the store.
    pub id: u32,
    /// Base name of the file.
    pub name: String,
    /// Path to the asset or to its descriptor.
    pub path: Option<String>,
    /// Type of the asset, from its extension.
    pub asset_type: AssetType,
    /// Identifier of the directory that holds the asset.
    pub parent_directory: u32,
}

/// The codes of the types are a bijection with declaration order: each variant
/// has the code of its place, counted from 1, and distinct types have distinct codes.
pub proof fn lemma_code_bijection(a: AssetType, b: AssetType)
    ensures
        all_types()[code_of(a) - 1] == a,
        code_of(a) == code_of(b) ==> a == b,
        1 <= code_of(a) <= all_types().len(),
{
}

} // verus!
