//! Block models and the texture each face of a block shows.
//!
//! A model either lists its own elements, whose faces name textures, or
//! defines texture variables and defers to a parent model. A face's texture
//! is found by walking up the parents, renaming each level's variables by the
//! child's, until a model with elements is reached.
//!
//! Names are interned by the caller: a texture variable, a texture resource
//! and a model are each known here by a `u32` id; a model's id is its index
//! in the registry.
use vstd::prelude::*;
use crate::geometry::FaceType;
use crate::save_format::{chars_of, string_of};

verus! {

/// A texture as a model names it: a variable that a child model defines
/// (written `#name` in model files), or a texture resource.
#[derive(Clone, Copy, Debug, PartialEq, Eq, Structural)]
pub enum ModelTextureType {
    ChildDefined(u32),
    TextureResource(u32),
}

/// The texture of one face of a model element.
#[derive(Clone, Copy, Debug, PartialEq, Eq)]
pub struct ModelElementTexture {
    /// The part of the texture to show, where the model gives it.
    pub uv: Option<[u32; 4]>,
    pub texture: ModelTextureType,
}

/// The faces of a model element; a face may be missing.
#[derive(Clone, Copy, Debug, PartialEq, Eq)]
pub struct ModelElement {
    pub front: Option<ModelElementTexture>,
    pub back: Option<ModelElementTexture>,
    pub left: Option<ModelElementTexture>,
    pub right: Option<ModelElementTexture>,
    pub top: Option<ModelElementTexture>,
    pub bottom: Option<ModelElementTexture>,
}

/// A block model.
#[derive(Debug)]
pub struct Block {
    /// The model this one defers to.
    pub parent: Option<u32>,
    /// The model's own elements.
    pub elements: Option<Vec<ModelElement>>,
    /// Texture variables this model defines, by variable id.
    pub textures: Option<Vec<(u32, ModelTextureType)>>,
}

/// The registered block models, by id, and the texture shown where a model
/// cannot be used.
pub struct ModelRegistry {
    pub models: Vec<Block>,
    pub fallback: u32,
}

pub open spec fn tex_usable(t: ModelElementTexture) -> bool {
    !(t.texture is ChildDefined)
}

pub open spec fn opt_usable(o: Option<ModelElementTexture>) -> bool {
    o matches Some(t) ==> tex_usable(t)
}

pub open spec fn element_usable(e: ModelElement) -> bool {
    &&& opt_usable(e.front)
    &&& opt_usable(e.back)
    &&& opt_usable(e.left)
    &&& opt_usable(e.right)
    &&& opt_usable(e.top)
    &&& opt_usable(e.bottom)
}

/// A model can be used for a block when it leaves no texture variable open:
/// none of its textures, and none of its elements' faces, is child-defined.
pub open spec fn model_usable(b: Block) -> bool {
    &&& (b.textures matches Some(ts) ==> forall|i: int| 0 <= i < ts@.len() ==> !((#[trigger] ts@[i]).1 is ChildDefined))
    &&& (b.elements matches Some(es) ==> forall|i: int| 0 <= i < es@.len() ==> element_usable(#[trigger] es@[i]))
}

/// The value of variable `k`: the first definition of it.
pub open spec fn lookup(vars: Seq<(u32, ModelTextureType)>, k: u32) -> Option<ModelTextureType>
    decreases vars.len(),
{
    if vars.len() == 0 {
        None
    } else if vars[0].0 == k {
        Some(vars[0].1)
    } else {
        lookup(vars.drop_first(), k)
    }
}

/// A texture with the child's variables put in.
pub open spec fn resolve_entry(v: ModelTextureType, child: Seq<(u32, ModelTextureType)>) -> Option<ModelTextureType> {
    match v {
        ModelTextureType::ChildDefined(k) => lookup(child, k),
        ModelTextureType::TextureResource(t) => Some(ModelTextureType::TextureResource(t)),
    }
}

/// A model's variables with the child's put in; none where one of them
/// names a variable the child does not define.
pub open spec fn rename(vars: Seq<(u32, ModelTextureType)>, child: Seq<(u32, ModelTextureType)>) -> Option<
    Seq<(u32, ModelTextureType)>,
>
    decreases vars.len(),
{
    if vars.len() == 0 {
        Some(Seq::empty())
    } else {
        match rename(vars.drop_last(), child) {
            None => None,
            Some(s) => match resolve_entry(vars.last().1, child) {
                None => None,
                Some(v) => Some(s.push((vars.last().0, v))),
            },
        }
    }
}

/// The texture an element names for a face. Right and bottom faces show
/// the element's front texture.
pub open spec fn face_texture(e: ModelElement, face: FaceType) -> Option<ModelElementTexture> {
    match face {
        FaceType::Front => e.front,
        FaceType::Back => e.back,
        FaceType::Left => e.left,
        FaceType::Right => e.front,
        FaceType::Top => e.top,
        FaceType::Bottom => e.front,
    }
}

/// The texture a model without variables shows on `face`, given the
/// variables its child defines: that of its first element.
pub open spec fn element_texture(b: Block, face: FaceType, child: Seq<(u32, ModelTextureType)>) -> Option<u32> {
    match b.elements {
        Some(es) => if es@.len() == 0 {
            None
        } else {
            match face_texture(es@[0], face) {
                None => None,
                Some(t) => match t.texture {
                    ModelTextureType::ChildDefined(k) => match lookup(child, k) {
                        Some(ModelTextureType::TextureResource(x)) => Some(x),
                        _ => None,
                    },
                    ModelTextureType::TextureResource(x) => Some(x),
                },
            }
        },
        None => None,
    }
}

/// The texture that model `b` shows on `face` once the child's variables
/// are put in, following at most `steps` models that define variables.
pub open spec fn resolve_within(
    reg: Seq<Block>,
    b: Block,
    face: FaceType,
    child: Seq<(u32, ModelTextureType)>,
    steps: nat,
) -> Option<u32>
    decreases steps,
{
    match b.textures {
        Some(ts) => if steps == 0 {
            None
        } else {
            match rename(ts@, child) {
                None => None,
                Some(vars) => match b.parent {
                    Some(p) => if p < reg.len() {
                        resolve_within(reg, reg[p as int], face, vars, (steps - 1) as nat)
                    } else {
                        None
                    },
                    None => None,
                },
            }
        },
        None => element_texture(b, face, child),
    }
}

/// The texture a model shows on `face`: the fallback where the model cannot
/// be used or has no parent; otherwise what its parent shows with its
/// variables. A walk that meets more variable-defining models than the
/// registry holds has met one twice, goes round that cycle and never ends;
/// it is counted as no result, as are a missing parent, variable or face.
pub open spec fn spec_get_texture(reg: Seq<Block>, fallback: u32, b: Block, face: FaceType) -> Option<u32> {
    if !model_usable(b) {
        Some(fallback)
    } else {
        match b.parent {
            None => Some(fallback),
            Some(p) => if p < reg.len() {
                match b.textures {
                    Some(ts) => resolve_within(reg, reg[p as int], face, ts@, reg.len()),
                    None => None,
                }
            } else {
                None
            },
        }
    }
}

/// How many variable-defining models the walk from model `q` passes before
/// it reaches one without variables, where that happens within `steps`
/// such models and the chain stays in the registry.
pub open spec fn run_length(reg: Seq<Block>, q: int, steps: nat) -> Option<nat>
    decreases steps,
{
    if !(0 <= q < reg.len()) {
        None
    } else {
        match reg[q].textures {
            None => Some(0),
            Some(_) => if steps == 0 {
                None
            } else {
                match reg[q].parent {
                    Some(p) => match run_length(reg, p as int, (steps - 1) as nat) {
                        Some(t) => Some(t + 1),
                        None => None,
                    },
                    None => None,
                }
            },
        }
    }
}

/// The model reached from `q` after `k` parents.
pub open spec fn walk(reg: Seq<Block>, q: int, k: nat) -> int
    decreases k,
{
    if k == 0 {
        q
    } else if 0 <= q < reg.len() && reg[q].parent is Some {
        walk(reg, reg[q].parent->0 as int, (k - 1) as nat)
    } else {
        -1
    }
}

/// A walk that ends is as long whatever budget lets it end.
proof fn lemma_run_length_budget(reg: Seq<Block>, q: int, n: nat, m: nat)
    requires
        run_length(reg, q, n) is Some,
        run_length(reg, q, m) is Some,
    ensures
        run_length(reg, q, n) == run_length(reg, q, m),
    decreases n,
{
    if reg[q].textures is Some {
        let p = reg[q].parent->0 as int;
        lemma_run_length_budget(reg, p, (n - 1) as nat, (m - 1) as nat);
    }
}

/// A resolution that gives a texture passes a walk that ends; any budget
/// that lets that walk end gives the same texture.
proof fn lemma_resolve_budget(
    reg: Seq<Block>,
    q: int,
    face: FaceType,
    child: Seq<(u32, ModelTextureType)>,
    n: nat,
    m: nat,
)
    requires
        0 <= q < reg.len(),
        resolve_within(reg, reg[q], face, child, n) is Some,
    ensures
        run_length(reg, q, n) is Some,
        run_length(reg, q, m) is Some ==> resolve_within(reg, reg[q], face, child, m) == resolve_within(
            reg,
            reg[q],
            face,
            child,
            n,
        ),
    decreases n,
{
    if reg[q].textures is Some {
        let ts = reg[q].textures->0;
        let vars = rename(ts@, child)->0;
        let p = reg[q].parent->0 as int;
        lemma_resolve_budget(reg, p, face, vars, (n - 1) as nat, (m - 1) as nat);
    }
}

/// Following `k` parents and then the rest of a walk that ends is the walk.
proof fn lemma_walk_shift(reg: Seq<Block>, q: int, n: nat, t: nat, k: nat)
    requires
        run_length(reg, q, n) == Some(t),
        k < t,
    ensures
        0 <= walk(reg, q, k) < reg.len(),
        k <= n,
        run_length(reg, walk(reg, q, k), (n - k) as nat) == Some((t - k) as nat),
    decreases k,
{
    if k > 0 {
        let p = reg[q].parent->0 as int;
        lemma_walk_shift(reg, p, (n - 1) as nat, (t - 1) as nat, (k - 1) as nat);
    }
}

/// A walk that ends passes at most as many variable-defining models as the
/// registry holds: it never meets one twice.
proof fn lemma_run_length_bound(reg: Seq<Block>, q: int, n: nat)
    requires
        run_length(reg, q, n) is Some,
    ensures
        run_length(reg, q, n)->0 <= reg.len(),
{
    let t = run_length(reg, q, n)->0;
    let s = Seq::new(t, |j: int| walk(reg, q, j as nat));
    assert forall|a: int, b: int| 0 <= a < b < s.len() implies s[a] != s[b] by {
        lemma_walk_shift(reg, q, n, t, a as nat);
        lemma_walk_shift(reg, q, n, t, b as nat);
        if s[a] == s[b] {
            lemma_run_length_budget(reg, s[a], (n - a) as nat, (n - b) as nat);
        }
    }
    assert forall|x: int| s.to_set().contains(x) implies vstd::set_lib::set_int_range(0, reg.len() as int).contains(x) by {
        let j = choose|j: int| 0 <= j < s.len() && s[j] == x;
        lemma_walk_shift(reg, q, n, t, j as nat);
    }
    s.unique_seq_to_set();
    vstd::set_lib::lemma_int_range(0, reg.len() as int);
    vstd::set_lib::lemma_len_subset(s.to_set(), vstd::set_lib::set_int_range(0, reg.len() as int));
}

/// The step budget of `spec_get_texture` cuts no walk short: whenever a
/// model's parent, given any budget, resolves a texture for a face, the
/// budget of as many steps as the registry holds resolves the same one.
pub proof fn lemma_budget_suffices(
    reg: Seq<Block>,
    p: int,
    face: FaceType,
    child: Seq<(u32, ModelTextureType)>,
    n: nat,
)
    requires
        0 <= p < reg.len(),
        resolve_within(reg, reg[p], face, child, n) is Some,
    ensures
        resolve_within(reg, reg[p], face, child, reg.len()) == resolve_within(reg, reg[p], face, child, n),
{
    lemma_resolve_budget(reg, p, face, child, n, n);
    lemma_run_length_bound(reg, p, n);
    lemma_run_length_monotone(reg, p, n, reg.len());
    lemma_resolve_budget(reg, p, face, child, n, reg.len());
}

/// A walk that ends within some budget ends within any budget at least as
/// large as its length.
proof fn lemma_run_length_monotone(reg: Seq<Block>, q: int, n: nat, m: nat)
    requires
        run_length(reg, q, n) is Some,
        run_length(reg, q, n)->0 <= m,
    ensures
        run_length(reg, q, m) == run_length(reg, q, n),
    decreases n,
{
    if reg[q].textures is Some {
        let p = reg[q].parent->0 as int;
        lemma_run_length_monotone(reg, p, (n - 1) as nat, (m - 1) as nat);
    }
}

/// Each face of an element shows the texture the element names for that
/// face: front, back, left and top their own; right and bottom faces show
/// the front texture.
pub proof fn lemma_face_texture_fields(e: ModelElement)
    ensures
        face_texture(e, FaceType::Front) == e.front,
        face_texture(e, FaceType::Back) == e.back,
        face_texture(e, FaceType::Left) == e.left,
        face_texture(e, FaceType::Top) == e.top,
        face_texture(e, FaceType::Right) == e.front,
        face_texture(e, FaceType::Bottom) == e.front,
{
}

/// The field of an element that a face reads, written out face by face.
pub open spec fn named_field(e: ModelElement, face: FaceType) -> Option<ModelElementTexture> {
    if face == FaceType::Back {
        e.back
    } else if face == FaceType::Left {
        e.left
    } else if face == FaceType::Top {
        e.top
    } else {
        e.front
    }
}

/// A usable model whose parent draws one element: a face whose element
/// texture names a resource shows that resource, and a face whose element
/// texture names a variable shows the resource the model defines for it.
pub proof fn lemma_texture_through_parent(
    reg: Seq<Block>,
    fallback: u32,
    b: Block,
    p: u32,
    face: FaceType,
    k: u32,
    x: u32,
)
    requires
        model_usable(b),
        b.parent == Some(p),
        p < reg.len(),
        b.textures is Some,
        var_keys(b.textures->0@).no_duplicates(),
        reg[p as int].textures is None,
        reg[p as int].elements matches Some(es) && es@.len() > 0 && (named_field(es@[0], face) matches Some(t)
            && (t.texture == ModelTextureType::TextureResource(x) || (t.texture
            == ModelTextureType::ChildDefined(k) && b.textures->0@.contains(
            (k, ModelTextureType::TextureResource(x)),
        )))),
    ensures
        spec_get_texture(reg, fallback, b, face) == Some(x),
{
    let es = reg[p as int].elements->0;
    let ts = b.textures->0@;
    lemma_face_texture_fields(es@[0]);
    if ts.contains((k, ModelTextureType::TextureResource(x))) {
        let i = choose|i: int| 0 <= i < ts.len() && ts[i] == (k, ModelTextureType::TextureResource(x));
        lemma_lookup_as_map(ts, k);
        assert(ts[i].0 == k);
    }
}

/// The variable ids of a list of variables, in order.
pub open spec fn var_keys(vars: Seq<(u32, ModelTextureType)>) -> Seq<u32> {
    vars.map_values(|p: (u32, ModelTextureType)| p.0)
}

impl Block {
    /// The model defines each of its variables once, as a map of variables
    /// does.
    pub open spec fn wf(&self) -> bool {
        self.textures matches Some(ts) ==> var_keys(ts@).no_duplicates()
    }
}

impl ModelRegistry {
    /// Every registered model defines each of its variables once.
    pub open spec fn wf(&self) -> bool {
        forall|i: int| 0 <= i < self.models@.len() ==> (#[trigger] self.models@[i]).wf()
    }
}

/// In a list that defines each variable once, looking a variable up gives
/// its one definition, and a variable not listed is not found: the list reads
/// as a map.
pub proof fn lemma_lookup_as_map(vars: Seq<(u32, ModelTextureType)>, k: u32)
    requires
        var_keys(vars).no_duplicates(),
    ensures
        !var_keys(vars).contains(k) ==> lookup(vars, k) is None,
        forall|i: int| 0 <= i < vars.len() && (#[trigger] vars[i]).0 == k ==> lookup(vars, k) == Some(vars[i].1),
    decreases vars.len(),
{
    if vars.len() > 0 {
        let rest = vars.drop_first();
        assert(var_keys(rest) =~= var_keys(vars).drop_first());
        assert(var_keys(rest).no_duplicates()) by {
            assert forall|a: int, b: int| 0 <= a < b < var_keys(rest).len() implies var_keys(rest)[a] != var_keys(rest)[b] by {
                assert(var_keys(rest)[a] == var_keys(vars)[a + 1]);
                assert(var_keys(rest)[b] == var_keys(vars)[b + 1]);
            }
        }
        lemma_lookup_as_map(rest, k);
        if !var_keys(vars).contains(k) {
            assert(var_keys(vars)[0] == vars[0].0);
            if var_keys(rest).contains(k) {
                let j = choose|j: int| 0 <= j < var_keys(rest).len() && var_keys(rest)[j] == k;
                assert(var_keys(vars)[j + 1] == k);
            }
        }
        assert forall|i: int| 0 <= i < vars.len() && (#[trigger] vars[i]).0 == k implies lookup(vars, k) == Some(
            vars[i].1,
        ) by {
            if i > 0 {
                assert(var_keys(vars)[i] == k);
                assert(var_keys(vars)[0] == vars[0].0);
                assert(vars[0].0 != k);
                assert(rest[i - 1] == vars[i]);
            }
        }
    }
}

/// Putting in a child's variables keeps a model's variable ids as they are,
/// so a model that defines each variable once hands on a list that does too.
pub proof fn lemma_rename_keeps_keys(vars: Seq<(u32, ModelTextureType)>, child: Seq<(u32, ModelTextureType)>)
    ensures
        rename(vars, child) matches Some(s) ==> var_keys(s) == var_keys(vars),
    decreases vars.len(),
{
    if vars.len() > 0 {
        lemma_rename_keeps_keys(vars.drop_last(), child);
        if let Some(s) = rename(vars, child) {
            let prev = rename(vars.drop_last(), child)->0;
            assert(var_keys(vars.drop_last()) =~= var_keys(vars).drop_last());
            assert(var_keys(s) =~= var_keys(prev).push(vars.last().0));
            assert(var_keys(vars) =~= var_keys(vars).drop_last().push(vars.last().0));
        }
    }
}

/// How a model file names a texture.
#[derive(Clone, Debug, PartialEq, Eq)]
pub enum TextureName {
    /// A variable that a child model defines, by name.
    Variable(String),
    /// A texture resource, by key.
    Resource(String),
}

/// `s` without its `#` characters.
pub open spec fn without_hashes(s: Seq<char>) -> Seq<char> {
    s.filter(|c: char| c != '#')
}

/// What a texture name in a model file stands for, given whether it reads
/// as a resource key: a resource key names a texture resource; any other
/// name must start with `#` and names the variable it spells without its `#`
/// characters. `None` for a name that is neither.
pub fn texture_name(name: &str, is_resource_key: bool) -> (r: Option<TextureName>)
    ensures
        is_resource_key ==> (r matches Some(TextureName::Resource(s)) && s@ == name@),
        !is_resource_key && name@.len() > 0 && name@[0] == '#' ==> (r matches Some(TextureName::Variable(s))
            && s@ == without_hashes(name@)),
        !is_resource_key && !(name@.len() > 0 && name@[0] == '#') ==> r is None,
{
    let chars = chars_of(name);
    if is_resource_key {
        return Some(TextureName::Resource(string_of(&chars)));
    }
    if chars.len() == 0 || chars[0] != '#' {
        return None;
    }
    let ghost keep = |c: char| c != '#';
    let mut out: Vec<char> = Vec::new();
    let mut i: usize = 0;
    while i < chars.len()
        invariant
            i <= chars@.len(),
            keep == (|c: char| c != '#'),
            out@ == chars@.subrange(0, i as int).filter(keep),
        decreases chars@.len() - i,
    {
        let c = chars[i];
        proof {
            assert(chars@.subrange(0, i + 1) =~= chars@.subrange(0, i as int).push(c));
            chars@.subrange(0, i as int).lemma_filter_push(c, keep);
        }
        if c != '#' {
            out.push(c);
        }
        i = i + 1;
    }
    proof {
        assert(chars@.subrange(0, chars@.len() as int) =~= chars@);
    }
    Some(TextureName::Variable(string_of(&out)))
}

impl ModelElementTexture {
    /// Whether the texture is not left to a child.
    pub fn can_be_used(&self) -> (r: bool)
        ensures
            r == tex_usable(*self),
    {
        match self.texture {
            ModelTextureType::ChildDefined(_) => false,
            ModelTextureType::TextureResource(_) => true,
        }
    }
}

fn opt_can_be_used(o: &Option<ModelElementTexture>) -> (r: bool)
    ensures
        r == opt_usable(*o),
{
    match o {
        Some(t) => t.can_be_used(),
        None => true,
    }
}

impl ModelElement {
    /// Whether every face the element has names a texture of its own.
    pub fn can_be_used(&self) -> (r: bool)
        ensures
            r == element_usable(*self),
    {
        opt_can_be_used(&self.front) && opt_can_be_used(&self.back) && opt_can_be_used(&self.left)
            && opt_can_be_used(&self.right) && opt_can_be_used(&self.top) && opt_can_be_used(&self.bottom)
    }
}

/// The value of variable `k` in `vars`.
fn lookup_var(vars: &Vec<(u32, ModelTextureType)>, k: u32) -> (r: Option<ModelTextureType>)
    ensures
        r == lookup(vars@, k),
{
    let mut i: usize = 0;
    assert(vars@.subrange(0, vars@.len() as int) =~= vars@);
    while i < vars.len()
        invariant
            i <= vars@.len(),
            lookup(vars@, k) == lookup(vars@.subrange(i as int, vars@.len() as int), k),
        decreases vars@.len() - i,
    {
        let ghost rest = vars@.subrange(i as int, vars@.len() as int);
        assert(rest.drop_first() =~= vars@.subrange(i + 1, vars@.len() as int));
        if vars[i].0 == k {
            return Some(vars[i].1);
        }
        i = i + 1;
    }
    None
}

/// `vars` with the child's variables put in.
fn rename_vars(vars: &Vec<(u32, ModelTextureType)>, child: &Vec<(u32, ModelTextureType)>) -> (r: Option<
    Vec<(u32, ModelTextureType)>,
>)
    ensures
        r matches Some(v) ==> rename(vars@, child@) == Some(v@),
        r is None ==> rename(vars@, child@) is None,
{
    let mut out: Vec<(u32, ModelTextureType)> = Vec::new();
    let mut i: usize = 0;
    while i < vars.len()
        invariant
            i <= vars@.len(),
            rename(vars@.subrange(0, i as int), child@) == Some(out@),
        decreases vars@.len() - i,
    {
        let (key, value) = vars[i];
        let ghost sub = vars@.subrange(0, i + 1);
        assert(sub.drop_last() =~= vars@.subrange(0, i as int));
        let resolved = match value {
            ModelTextureType::ChildDefined(k) => lookup_var(child, k),
            ModelTextureType::TextureResource(t) => Some(ModelTextureType::TextureResource(t)),
        };
        match resolved {
            Some(v) => {
                out.push((key, v));
            },
            None => {
                proof {
                    assert(vars@.subrange(0, vars@.len() as int) =~= vars@);
                    lemma_rename_fails_on(vars@, child@, i as int);
                }
                return None;
            },
        }
        i = i + 1;
    }
    assert(vars@.subrange(0, vars@.len() as int) =~= vars@);
    Some(out)
}

/// Once a prefix of the variables fails to rename, every longer prefix does.
proof fn lemma_rename_fails_on(vars: Seq<(u32, ModelTextureType)>, child: Seq<(u32, ModelTextureType)>, i: int)
    requires
        0 <= i < vars.len(),
        resolve_entry(vars[i].1, child) is None,
    ensures
        rename(vars, child) is None,
    decreases vars.len(),
{
    if i < vars.len() - 1 {
        lemma_rename_fails_on(vars.drop_last(), child, i);
    }
}

/// The texture an element names for a face, as `face_texture` says.
fn element_face(e: &ModelElement, face: FaceType) -> (r: Option<ModelElementTexture>)
    ensures
        r == face_texture(*e, face),
{
    match face {
        FaceType::Front => e.front,
        FaceType::Back => e.back,
        FaceType::Left => e.left,
        FaceType::Right => e.front,
        FaceType::Top => e.top,
        FaceType::Bottom => e.front,
    }
}

/// The texture a model without variables shows on `face`.
fn texture_of_elements(b: &Block, face: FaceType, child: &Vec<(u32, ModelTextureType)>) -> (r: Option<u32>)
    ensures
        r == element_texture(*b, face, child@),
{
    match &b.elements {
        Some(es) => {
            if es.len() == 0 {
                None
            } else {
                match element_face(&es[0], face) {
                    None => None,
                    Some(t) => match t.texture {
                        ModelTextureType::ChildDefined(k) => match lookup_var(child, k) {
                            Some(ModelTextureType::TextureResource(x)) => Some(x),
                            _ => None,
                        },
                        ModelTextureType::TextureResource(x) => Some(x),
                    },
                }
            }
        },
        None => None,
    }
}

/// A copy of a variable list.
fn copy_vars(vars: &Vec<(u32, ModelTextureType)>) -> (r: Vec<(u32, ModelTextureType)>)
    ensures
        r@ == vars@,
{
    let mut out: Vec<(u32, ModelTextureType)> = Vec::new();
    let mut i: usize = 0;
    while i < vars.len()
        invariant
            i <= vars@.len(),
            out@ == vars@.subrange(0, i as int),
        decreases vars@.len() - i,
    {
        out.push(vars[i]);
        i = i + 1;
    }
    assert(vars@.subrange(0, vars@.len() as int) =~= vars@);
    out
}

impl Block {
    /// Whether the model leaves no texture variable open.
    pub fn can_be_used(&self) -> (r: bool)
        ensures
            r == model_usable(*self),
    {
        match &self.textures {
            Some(ts) => {
                let mut i: usize = 0;
                while i < ts.len()
                    invariant
                        i <= ts@.len(),
                        self.textures is Some,
                        self.textures->0@ == ts@,
                        forall|j: int| 0 <= j < i ==> !((#[trigger] ts@[j]).1 is ChildDefined),
                    decreases ts@.len() - i,
                {
                    if let ModelTextureType::ChildDefined(_) = ts[i].1 {
                        proof {
                            let tv = self.textures->0;
                            assert(tv@ == ts@);
                            assert(tv@[i as int].1 is ChildDefined);
                        }
                        return false;
                    }
                    i = i + 1;
                }
            },
            None => {},
        }
        match &self.elements {
            Some(es) => {
                let mut i: usize = 0;
                while i < es.len()
                    invariant
                        i <= es@.len(),
                        self.elements is Some,
                        self.elements->0@ == es@,
                        forall|j: int| 0 <= j < i ==> element_usable(#[trigger] es@[j]),
                    decreases es@.len() - i,
                {
                    if !es[i].can_be_used() {
                        proof {
                            let ev = self.elements->0;
                            assert(ev@ == es@);
                            assert(!element_usable(ev@[i as int]));
                        }
                        return false;
                    }
                    i = i + 1;
                }
            },
            None => {},
        }
        true
    }

    /// The texture this model shows on `face`, where it can be found; see
    /// `spec_get_texture`.
    pub fn try_get_texture(&self, face: FaceType, registry: &ModelRegistry) -> (r: Option<u32>)
        ensures
            r == spec_get_texture(registry.models@, registry.fallback, *self, face),
    {
        if !self.can_be_used() {
            return Some(registry.fallback);
        }
        let p = match self.parent {
            None => {
                return Some(registry.fallback);
            },
            Some(p) => p,
        };
        if p as usize >= registry.models.len() {
            return None;
        }
        let ts = match &self.textures {
            None => {
                return None;
            },
            Some(ts) => ts,
        };
        let ghost reg = registry.models@;
        let mut child: Vec<(u32, ModelTextureType)> = copy_vars(ts);
        let mut cur: &Block = &registry.models[p as usize];
        let mut steps: usize = registry.models.len();
        loop
            invariant
                reg == registry.models@,
                resolve_within(reg, *cur, face, child@, steps as nat) == spec_get_texture(
                    reg,
                    registry.fallback,
                    *self,
                    face,
                ),
            decreases steps,
        {
            match &cur.textures {
                None => {
                    return texture_of_elements(cur, face, &child);
                },
                Some(vars) => {
                    if steps == 0 {
                        return None;
                    }
                    let renamed = match rename_vars(vars, &child) {
                        None => {
                            return None;
                        },
                        Some(v) => v,
                    };
                    let q = match cur.parent {
                        None => {
                            return None;
                        },
                        Some(q) => q,
                    };
                    if q as usize >= registry.models.len() {
                        return None;
                    }
                    child = renamed;
                    cur = &registry.models[q as usize];
                    steps = steps - 1;
                },
            }
        }
    }

    /// The texture this model shows on `face`.
    pub fn get_texture(&self, face: FaceType, registry: &ModelRegistry) -> (t: u32)
        requires
            spec_get_texture(registry.models@, registry.fallback, *self, face) is Some,
        ensures
            spec_get_texture(registry.models@, registry.fallback, *self, face) == Some(t),
    {
        match self.try_get_texture(face, registry) {
            Some(t) => t,
            None => registry.fallback,
        }
    }
}

} // verus!
