//! Block definitions and the registry that hands out block ids.
use vstd::prelude::*;

verus! {

/// Index of a block definition in the registry.
pub type BlockId = u16;

/// The rectangle that a block's texture covers in the texture atlas, in
/// normalised atlas coordinates. Each corner coordinate is kept as the bit
/// pattern of its `f32`: the library only copies these values into meshes.
#[derive(Clone, Copy, Debug, PartialEq, Eq, Structural)]
pub struct UvRect {
    pub min_x: u32,
    pub min_y: u32,
    pub max_x: u32,
    pub max_y: u32,
}

impl UvRect {
    /// The empty rectangle at the origin (all four coordinates `0.0`).
    pub fn zero() -> (r: UvRect)
        ensures
            r == (UvRect { min_x: 0, min_y: 0, max_x: 0, max_y: 0 }),
    {
        UvRect { min_x: 0, min_y: 0, max_x: 0, max_y: 0 }
    }
}

/// A block type as read from a `.block.ron` file, completed by the
/// registry with its place in the texture atlas.
#[derive(Debug)]
pub struct BlockDefinition {
    pub name: String,
    pub key: String,
    /// Bit pattern of the `f32` hardness; `0` stands for `0.0`.
    pub hardness: u32,
    pub transparent: bool,
    pub empty: bool,
    pub solid: bool,
    pub texture: String,
    pub uv_rect: UvRect,
}

/// The texture path that a definition without a `texture` field gets.
pub fn default_texture() -> (s: String)
    ensures
        s@ == "textures/TestTexture.png"@,
{
    "textures/TestTexture.png".to_owned()
}

/// The value of a boolean field that defaults to `true` (`solid`).
pub fn default_true() -> (b: bool)
    ensures
        b,
{
    true
}

/// The value of a boolean field that defaults to `false` (`transparent`,
/// `empty`).
pub fn default_false() -> (b: bool)
    ensures
        !b,
{
    false
}

impl BlockDefinition {
    /// A definition that names only `name` and `key`: every other field takes
    /// its default (hardness `0.0`, not transparent, not empty, solid, the
    /// default texture, and the empty atlas rectangle).
    pub fn with_defaults(name: String, key: String) -> (d: BlockDefinition)
        ensures
            d.name == name,
            d.key == key,
            d.hardness == 0,
            !d.transparent,
            !d.empty,
            d.solid,
            d.texture@ == "textures/TestTexture.png"@,
            d.uv_rect == UvRect::zero_spec(),
    {
        BlockDefinition {
            name,
            key,
            hardness: 0,
            transparent: default_false(),
            empty: default_false(),
            solid: default_true(),
            texture: default_texture(),
            uv_rect: UvRect::zero(),
        }
    }
}

impl UvRect {
    /// The empty rectangle at the origin.
    pub open spec fn zero_spec() -> UvRect {
        UvRect { min_x: 0, min_y: 0, max_x: 0, max_y: 0 }
    }
}

/// Index of the last definition in `defs` whose key is `key`.
pub open spec fn last_with_key(defs: Seq<BlockDefinition>, key: Seq<char>) -> Option<int>
    decreases defs.len(),
{
    if defs.len() == 0 {
        None
    } else if defs.last().key@ == key {
        Some(defs.len() - 1)
    } else {
        last_with_key(defs.drop_last(), key)
    }
}

/// The registered block definitions. A definition's id is its position in
/// registration order, taken modulo 2^16 as the id type holds; a key looks
/// up the id of the last definition registered under it.
pub struct BlockRegistry {
    definitions: Vec<BlockDefinition>,
}

/// What became of a loaded definition offered to the registry.
#[derive(Clone, Copy, Debug, PartialEq, Eq, Structural)]
pub enum Admission {
    /// Registered under this id.
    Registered(BlockId),
    /// Skipped: its texture is not among the loaded textures.
    TextureMissing,
    /// Skipped: its texture is loaded but not part of the atlas.
    NotInAtlas,
}

impl BlockRegistry {
    /// The definitions in registration order.
    pub closed spec fn defs(&self) -> Seq<BlockDefinition> {
        self.definitions@
    }

    /// The number of ids that `get_def` answers: the count of definitions,
    /// truncated to the id type.
    pub open spec fn id_limit(&self) -> int {
        (self.defs().len() as u16) as int
    }

    /// What `get_id` returns for `key`.
    pub open spec fn spec_get_id(&self, key: Seq<char>) -> Option<BlockId> {
        match last_with_key(self.defs(), key) {
            Some(i) => Some(i as u16),
            None => None,
        }
    }

    /// What `get_def` returns for `id`.
    pub open spec fn spec_get_def(&self, id: BlockId) -> Option<BlockDefinition> {
        if id < self.id_limit() {
            Some(self.defs()[id as int])
        } else {
            None
        }
    }

    /// An empty registry.
    pub fn new() -> (r: BlockRegistry)
        ensures
            r.defs().len() == 0,
    {
        BlockRegistry { definitions: Vec::new() }
    }

    /// The number of registered definitions.
    pub fn len(&self) -> (n: usize)
        ensures
            n == self.defs().len(),
    {
        self.definitions.len()
    }

    /// The id of the definition last registered under `key`.
    pub fn get_id(&self, key: &str) -> (r: Option<BlockId>)
        ensures
            r == self.spec_get_id(key@),
    {
        let k = key.to_owned();
        let mut i = self.definitions.len();
        while i > 0
            invariant
                i <= self.defs().len(),
                k@ == key@,
                forall|j: int| i <= j < self.defs().len() ==> self.defs()[j].key@ != key@,
            decreases i,
        {
            if self.definitions[i - 1].key == k {
                proof {
                    lemma_last_with_key(self.defs(), key@);
                }
                return Some(#[verifier::truncate] ((i - 1) as u16));
            }
            i = i - 1;
        }
        proof {
            lemma_last_with_key(self.defs(), key@);
        }
        None
    }

    /// The definition with id `id`, if the registry holds one.
    pub fn get_def(&self, id: BlockId) -> (r: Option<&BlockDefinition>)
        ensures
            match r {
                Some(d) => self.spec_get_def(id) == Some(*d),
                None => self.spec_get_def(id) is None,
            },
    {
        if id >= self.definitions.len() as u16 {
            return None;
        }
        Some(&self.definitions[id as usize])
    }

    /// Appends `block_def`; its id is the previous number of definitions.
    pub fn register(&mut self, block_def: BlockDefinition)
        ensures
            final(self).defs() == old(self).defs().push(block_def),
    {
        self.definitions.push(block_def);
    }

    /// Offers a definition that was loaded from disk. It is registered, with
    /// `uv_rect` as its atlas rectangle, when its texture was found and the
    /// atlas holds it; otherwise the registry stays as it was.
    pub fn register_loaded(
        &mut self,
        block_def: BlockDefinition,
        texture_found: bool,
        uv_rect: Option<UvRect>,
    ) -> (a: Admission)
        ensures
            !texture_found ==> a == Admission::TextureMissing && final(self).defs() == old(self).defs(),
            texture_found && uv_rect is None ==> a == Admission::NotInAtlas && final(self).defs() == old(self).defs(),
            texture_found && uv_rect is Some ==> {
                &&& a == Admission::Registered(old(self).defs().len() as u16)
                &&& final(self).defs() == old(self).defs().push(
                    BlockDefinition { uv_rect: uv_rect->0, ..block_def },
                )
            },
    {
        if !texture_found {
            return Admission::TextureMissing;
        }
        match uv_rect {
            None => Admission::NotInAtlas,
            Some(rect) => {
                let id = self.definitions.len() as BlockId;
                let mut registered_def = block_def;
                registered_def.uv_rect = rect;
                self.register(registered_def);
                Admission::Registered(id)
            },
        }
    }
}

/// `last_with_key` finds the last definition with the key, and only one
/// with the key.
pub proof fn lemma_last_with_key(defs: Seq<BlockDefinition>, key: Seq<char>)
    ensures
        match last_with_key(defs, key) {
            Some(i) => 0 <= i < defs.len() && defs[i].key@ == key && forall|j: int|
                i < j < defs.len() ==> defs[j].key@ != key,
            None => forall|j: int| 0 <= j < defs.len() ==> defs[j].key@ != key,
        },
    decreases defs.len(),
{
    if defs.len() > 0 && defs.last().key@ != key {
        lemma_last_with_key(defs.drop_last(), key);
        assert forall|j: int| 0 <= j < defs.len() - 1 implies defs[j] == defs.drop_last()[j] by {}
    }
}


/// Registering a definition makes its key name the new id (the previous
/// number of definitions, modulo 2^16), and leaves every other key's id as it
/// was.
pub proof fn lemma_register_then_get_id(before: BlockRegistry, after: BlockRegistry, def: BlockDefinition)
    requires
        after.defs() == before.defs().push(def),
    ensures
        after.spec_get_id(def.key@) == Some(before.defs().len() as u16),
        forall|k: Seq<char>| k != def.key@ ==> #[trigger] after.spec_get_id(k) == before.spec_get_id(k),
{
    assert(after.defs().drop_last() =~= before.defs());
}

/// While ids do not wrap around, the new id reads back the registered
/// definition, and every earlier id reads back what it read before.
pub proof fn lemma_register_then_get_def(before: BlockRegistry, after: BlockRegistry, def: BlockDefinition)
    requires
        after.defs() == before.defs().push(def),
        before.defs().len() + 1 < 0x1_0000,
    ensures
        after.spec_get_def(before.defs().len() as u16) == Some(def),
        forall|id: BlockId| id < before.defs().len() ==> #[trigger] after.spec_get_def(id) == before.spec_get_def(id),
{
}

} // verus!
