//! Domain-separated Merkle root over an ordered list of digests.
//!
//! Leaves enter the tree as they are. Each parent is the SHA-256 digest of
//! the domain separator, a zero byte and the two children; a level with an
//! odd number of nodes pairs its last node with itself. That holds of a
//! level of one leaf too: a lone leaf is paired with itself and hashed once.

use crate::codec::{
    bytes_to_sha_tag, decode_error, digest_tag, is_sha_tag, lemma_decode_encode,
    lemma_digest_tag_injective, lemma_tag_digest_injective, sha_tag_to_bytes, tag_digest,
    tag_prefix,
};
use sha2::{Digest, Sha256};
use vstd::prelude::*;
use vstd::string::*;
use vstd::utf8::*;

verus! {

/// The SHA-256 digest of a byte string.
pub uninterp spec fn sha256_hash(preimage: Seq<u8>) -> Seq<u8>;

/// Hashes `preimage` with `sha2::Sha256`: `Digest::new`, one
/// `Digest::update` with the whole input, `Digest::finalize`.
///
/// Trusted: the 32 bytes returned are the SHA-256 digest of the input, a
/// function of the input bytes alone.
#[verifier::external_body]
fn sha256(preimage: &[u8]) -> (digest: [u8; 32])
    ensures
        digest@ == sha256_hash(preimage@),
{
    let mut h = Sha256::new();
    h.update(preimage);
    let out = h.finalize();
    let mut arr = [0u8; 32];
    arr.copy_from_slice(&out);
    arr
}

/// The bytes that set this tree's hashes apart from every other use of
/// SHA-256: the ASCII text `PSP.MerkleRoot.v1`.
pub open spec fn domain_separator() -> Seq<u8> {
    "PSP.MerkleRoot.v1".spec_bytes()
}

/// What is hashed to join two nodes.
pub open spec fn node_preimage(left: Seq<u8>, right: Seq<u8>) -> Seq<u8> {
    domain_separator() + seq![0u8] + left + right
}

/// The parent of two nodes.
pub open spec fn parent_digest(left: Seq<u8>, right: Seq<u8>) -> Seq<u8> {
    sha256_hash(node_preimage(left, right))
}

/// The level above `layer`: neighbours are joined left to right, and a last
/// node without a neighbour is joined with itself.
pub open spec fn next_layer(layer: Seq<Seq<u8>>) -> Seq<Seq<u8>> {
    Seq::new(
        ((layer.len() + 1) / 2) as nat,
        |k: int|
            parent_digest(
                layer[2 * k],
                if 2 * k + 1 < layer.len() {
                    layer[2 * k + 1]
                } else {
                    layer[2 * k]
                },
            ),
    )
}

/// The digest that marks an empty tree: 32 zero bytes, not a hash of anything.
pub open spec fn empty_root() -> Seq<u8> {
    Seq::new(32, |i: int| 0u8)
}

/// The root of the tree over the leaves in `layer`. Levels are built until
/// one node is left, and at least one level is built: the root of one or two
/// leaves is the single node of the level above them.
pub open spec fn merkle_root(layer: Seq<Seq<u8>>) -> Seq<u8>
    decreases layer.len(),
{
    if layer.len() == 0 {
        empty_root()
    } else if layer.len() <= 2 {
        next_layer(layer)[0]
    } else {
        merkle_root(next_layer(layer))
    }
}

/// The digests named by a list of tags, in order.
pub open spec fn leaf_digests(tags: Seq<Seq<char>>) -> Seq<Seq<u8>> {
    tags.map_values(|tag: Seq<char>| tag_digest(tag))
}

/// Whether every tag in the list is well formed.
pub open spec fn all_sha_tags(tags: Seq<Seq<char>>) -> bool {
    forall|i: int| 0 <= i < tags.len() ==> is_sha_tag(#[trigger] tags[i])
}

/// Whether `k` is the position of the first malformed tag.
pub open spec fn is_first_malformed(tags: Seq<Seq<char>>, k: int) -> bool {
    &&& 0 <= k < tags.len()
    &&& !is_sha_tag(tags[k])
    &&& forall|j: int| 0 <= j < k ==> is_sha_tag(#[trigger] tags[j])
}

/// The position of the first malformed tag, where there is one.
pub open spec fn first_malformed(tags: Seq<Seq<char>>) -> int {
    choose|k: int| is_first_malformed(tags, k)
}

/// What the root computation yields for a list of tags: the root's tag when
/// every tag is well formed (the all-zero tag for the empty list), else the
/// rejection of the first malformed tag.
pub open spec fn psp_merkle_root(tags: Seq<Seq<char>>) -> Result<Seq<char>, Seq<char>> {
    if all_sha_tags(tags) {
        Ok(digest_tag(merkle_root(leaf_digests(tags))))
    } else {
        Err(decode_error(tags[first_malformed(tags)]))
    }
}

/// A returned root or rejection, as text.
pub open spec fn text_outcome(res: Result<String, String>) -> Result<Seq<char>, Seq<char>> {
    match res {
        Ok(root) => Ok(root@),
        Err(msg) => Err(msg@),
    }
}

/// The raw digests held in a layer.
pub open spec fn layer_digests(layer: Seq<[u8; 32]>) -> Seq<Seq<u8>> {
    layer.map_values(|node: [u8; 32]| node@)
}

/// Two different byte strings with the same SHA-256 digest.
pub open spec fn sha256_collision(p: Seq<u8>, q: Seq<u8>) -> bool {
    p != q && sha256_hash(p) == sha256_hash(q)
}

/// The domain separator, byte by byte.
pub proof fn lemma_domain_separator_bytes()
    ensures
        domain_separator() == seq![
            80u8, 83, 80, 46, 77, 101, 114, 107, 108, 101, 82, 111, 111, 116, 46, 118, 49,
        ],
{
    reveal_strlit("PSP.MerkleRoot.v1");
    let text = "PSP.MerkleRoot.v1"@;
    assert(is_ascii_chars(text));
    is_ascii_chars_encode_utf8(text);
    assert(domain_separator() =~= seq![
        80u8, 83, 80, 46, 77, 101, 114, 107, 108, 101, 82, 111, 111, 116, 46, 118, 49,
    ]);
}

/// A preimage fixes both children: two pairs of equally long nodes with the
/// same preimage are the same pair.
pub proof fn lemma_node_preimage_injective(
    left: Seq<u8>,
    right: Seq<u8>,
    other_left: Seq<u8>,
    other_right: Seq<u8>,
)
    requires
        left.len() == other_left.len(),
        node_preimage(left, right) == node_preimage(other_left, other_right),
    ensures
        left == other_left,
        right == other_right,
{
    let head = domain_separator().len() + 1;
    let p = node_preimage(left, right);
    let q = node_preimage(other_left, other_right);
    assert(p.len() == head + left.len() + right.len());
    assert(q.len() == head + other_left.len() + other_right.len());
    assert forall|k: int| 0 <= k < left.len() implies left[k] == other_left[k] by {
        assert(p[head + k] == left[k]);
        assert(q[head + k] == other_left[k]);
    }
    assert(left =~= other_left);
    assert forall|k: int| 0 <= k < right.len() implies right[k] == other_right[k] by {
        assert(p[head + left.len() + k] == right[k]);
        assert(q[head + left.len() + k] == other_right[k]);
    }
    assert(right =~= other_right);
}

/// The root of one node is that node paired with itself.
pub proof fn lemma_root_of_one(x: Seq<u8>)
    ensures
        merkle_root(seq![x]) == parent_digest(x, x),
{
    let up = next_layer(seq![x]);
    assert(up =~= seq![parent_digest(x, x)]);
    assert(merkle_root(seq![x]) == up[0]);
}

/// The root of two nodes is their parent.
pub proof fn lemma_root_of_two(x: Seq<u8>, y: Seq<u8>)
    ensures
        merkle_root(seq![x, y]) == parent_digest(x, y),
{
    let up = next_layer(seq![x, y]);
    assert(up =~= seq![parent_digest(x, y)]);
    assert(merkle_root(seq![x, y]) == up[0]);
}

/// The root of three nodes joins the parent of the first two with the third
/// node paired with itself.
pub proof fn lemma_root_of_three(x: Seq<u8>, y: Seq<u8>, z: Seq<u8>)
    ensures
        merkle_root(seq![x, y, z]) == parent_digest(parent_digest(x, y), parent_digest(z, z)),
{
    let up = next_layer(seq![x, y, z]);
    assert(up =~= seq![parent_digest(x, y), parent_digest(z, z)]);
    assert(merkle_root(seq![x, y, z]) == merkle_root(up));
    lemma_root_of_two(parent_digest(x, y), parent_digest(z, z));
}

/// A list with a malformed tag has a first one, at or before any malformed
/// position.
pub proof fn lemma_first_malformed(tags: Seq<Seq<char>>, i: int)
    requires
        0 <= i < tags.len(),
        !is_sha_tag(tags[i]),
    ensures
        is_first_malformed(tags, first_malformed(tags)),
        first_malformed(tags) <= i,
    decreases i,
{
    if exists|j: int| 0 <= j < i && !is_sha_tag(tags[j]) {
        let j = choose|j: int| 0 <= j < i && !is_sha_tag(tags[j]);
        lemma_first_malformed(tags, j);
    } else {
        assert(is_first_malformed(tags, i));
        let k = first_malformed(tags);
        if k > i {
            assert(is_sha_tag(tags[i]));
        }
    }
}

/// Calls on the same tags yield the same root or the same rejection.
pub proof fn lemma_root_is_deterministic(
    tags: Seq<Seq<char>>,
    first: Result<String, String>,
    second: Result<String, String>,
)
    requires
        text_outcome(first) == psp_merkle_root(tags),
        text_outcome(second) == psp_merkle_root(tags),
    ensures
        text_outcome(first) == text_outcome(second),
{
}

/// The empty list yields the all-zero tag: the prefix and 64 zero digits.
pub proof fn lemma_empty_list_root()
    ensures
        psp_merkle_root(Seq::<Seq<char>>::empty()) == Ok::<Seq<char>, Seq<char>>(
            tag_prefix() + Seq::new(64, |i: int| '0'),
        ),
{
    let tags = Seq::<Seq<char>>::empty();
    assert(leaf_digests(tags) =~= Seq::<Seq<u8>>::empty());
    assert(digest_tag(empty_root()) =~= tag_prefix() + Seq::new(64, |i: int| '0'));
}

/// A single leaf is paired with itself: its root is the tag of the digest of
/// the domain separator, a zero byte and the leaf twice.
pub proof fn lemma_single_leaf_root(leaf: Seq<char>)
    requires
        is_sha_tag(leaf),
    ensures
        psp_merkle_root(seq![leaf]) == Ok::<Seq<char>, Seq<char>>(
            digest_tag(parent_digest(tag_digest(leaf), tag_digest(leaf))),
        ),
        parent_digest(tag_digest(leaf), tag_digest(leaf)) == sha256_hash(
            domain_separator() + seq![0u8] + tag_digest(leaf) + tag_digest(leaf),
        ),
{
    let tags = seq![leaf];
    assert(all_sha_tags(tags));
    assert(leaf_digests(tags) =~= seq![tag_digest(leaf)]);
    lemma_root_of_one(tag_digest(leaf));
}

/// For three leaves the root is the parent of the pair `(a, b)` joined with
/// the parent of `c` paired with itself.
pub proof fn lemma_three_leaf_root(a: Seq<char>, b: Seq<char>, c: Seq<char>)
    requires
        is_sha_tag(a),
        is_sha_tag(b),
        is_sha_tag(c),
    ensures
        psp_merkle_root(seq![a, b, c]) == Ok::<Seq<char>, Seq<char>>(
            digest_tag(
                parent_digest(
                    parent_digest(tag_digest(a), tag_digest(b)),
                    parent_digest(tag_digest(c), tag_digest(c)),
                ),
            ),
        ),
{
    let tags = seq![a, b, c];
    assert(all_sha_tags(tags));
    assert(leaf_digests(tags) =~= seq![tag_digest(a), tag_digest(b), tag_digest(c)]);
    lemma_root_of_three(tag_digest(a), tag_digest(b), tag_digest(c));
}

/// Swapping two distinct leaves changes what is hashed: the two preimages
/// differ.
pub proof fn lemma_swapped_preimages_differ(a: Seq<char>, b: Seq<char>)
    requires
        is_sha_tag(a),
        is_sha_tag(b),
        a != b,
    ensures
        node_preimage(tag_digest(a), tag_digest(b)) != node_preimage(tag_digest(b), tag_digest(a)),
{
    let x = tag_digest(a);
    let y = tag_digest(b);
    if x == y {
        lemma_tag_digest_injective(a, b);
    }
    if node_preimage(x, y) == node_preimage(y, x) {
        lemma_node_preimage_injective(x, y, y, x);
    }
}

/// Swapping two distinct leaves changes the root. The one way out is a
/// SHA-256 collision between the two preimages that the swap produces, which
/// is left out here.
pub proof fn lemma_order_sensitive(a: Seq<char>, b: Seq<char>)
    requires
        is_sha_tag(a),
        is_sha_tag(b),
        a != b,
        !sha256_collision(
            node_preimage(tag_digest(a), tag_digest(b)),
            node_preimage(tag_digest(b), tag_digest(a)),
        ),
    ensures
        psp_merkle_root(seq![a, b]) != psp_merkle_root(seq![b, a]),
{
    let x = tag_digest(a);
    let y = tag_digest(b);
    lemma_swapped_preimages_differ(a, b);
    assert(all_sha_tags(seq![a, b]));
    assert(all_sha_tags(seq![b, a]));
    assert(leaf_digests(seq![a, b]) =~= seq![x, y]);
    assert(leaf_digests(seq![b, a]) =~= seq![y, x]);
    lemma_root_of_two(x, y);
    lemma_root_of_two(y, x);
    if digest_tag(parent_digest(x, y)) == digest_tag(parent_digest(y, x)) {
        lemma_digest_tag_injective(parent_digest(x, y), parent_digest(y, x));
    }
}

/// A list that holds a malformed tag yields no root: the call is rejected
/// with the message for the first malformed tag.
pub proof fn lemma_malformed_tag_rejected(tags: Seq<Seq<char>>, i: int)
    requires
        0 <= i < tags.len(),
        !is_sha_tag(tags[i]),
    ensures
        is_first_malformed(tags, first_malformed(tags)),
        psp_merkle_root(tags) == Err::<Seq<char>, Seq<char>>(
            decode_error(tags[first_malformed(tags)]),
        ),
{
    lemma_first_malformed(tags, i);
}

/// Joins two nodes into their parent.
fn node_hash(left: &[u8; 32], right: &[u8; 32]) -> (digest: [u8; 32])
    ensures
        digest@ == parent_digest(left@, right@),
{
    let domain = "PSP.MerkleRoot.v1".as_bytes();
    let mut preimage: Vec<u8> = Vec::new();
    preimage.extend_from_slice(domain);
    preimage.push(0u8);
    preimage.extend_from_slice(left.as_slice());
    preimage.extend_from_slice(right.as_slice());
    proof {
        assert(preimage@ =~= node_preimage(left@, right@));
    }
    sha256(preimage.as_slice())
}

/// Builds the level above `layer`.
fn build_next_layer(layer: &Vec<[u8; 32]>) -> (next: Vec<[u8; 32]>)
    requires
        layer@.len() >= 1,
    ensures
        next@.len() == (layer@.len() + 1) / 2,
        layer_digests(next@) == next_layer(layer_digests(layer@)),
{
    let half: usize = layer.len() / 2 + layer.len() % 2;
    let mut next: Vec<[u8; 32]> = Vec::new();
    let mut k: usize = 0;
    while k < half
        invariant
            k <= half,
            half == (layer@.len() + 1) / 2,
            layer@.len() <= usize::MAX,
            next@.len() == k,
            forall|j: int|
                0 <= j < k ==> (#[trigger] next@[j])@ == next_layer(layer_digests(layer@))[j],
        decreases half - k,
    {
        assert(2 * k < layer@.len());
        let left = &layer[2 * k];
        let right = if 2 * k + 1 < layer.len() {
            &layer[2 * k + 1]
        } else {
            &layer[2 * k]
        };
        let node = node_hash(left, right);
        next.push(node);
        k += 1;
    }
    proof {
        assert(layer_digests(next@) =~= next_layer(layer_digests(layer@)));
    }
    next
}

/// Whether two digests are the same.
fn same_digest(x: &[u8; 32], y: &[u8; 32]) -> (same: bool)
    ensures
        same == (x@ == y@),
{
    let mut i: usize = 0;
    while i < 32
        invariant
            i <= 32,
            forall|k: int| 0 <= k < i ==> x@[k] == y@[k],
        decreases 32 - i,
    {
        if x[i] != y[i] {
            return false;
        }
        i += 1;
    }
    proof {
        assert(x@ =~= y@);
    }
    true
}

/// Computes the Merkle root over per-tick digests given as tags, in order.
///
/// The empty list yields the all-zero tag. Otherwise every tag is decoded
/// first; the first malformed one aborts the call with its rejection, and no
/// root is returned. Levels are then built until one node is left, at least
/// once, so a lone leaf is paired with itself. A returned root is itself a
/// well-formed tag. The result is a function of the input alone.
pub fn psp_merkle_root_from_tick_hashes(tick_hashes: &[String]) -> (res: Result<String, String>)
    ensures
        text_outcome(res) == psp_merkle_root(tick_hashes.deep_view()),
        res matches Ok(root) ==> is_sha_tag(root@),
{
    let ghost tags = tick_hashes.deep_view();
    if tick_hashes.is_empty() {
        let zeros = [0u8; 32];
        proof {
            assert(leaf_digests(tags) =~= Seq::<Seq<u8>>::empty());
            assert(zeros@ =~= empty_root());
            lemma_decode_encode(zeros@);
        }
        return Ok(bytes_to_sha_tag(&zeros));
    }
    let mut layer: Vec<[u8; 32]> = Vec::new();
    let mut n: usize = 0;
    while n < tick_hashes.len()
        invariant
            n <= tick_hashes@.len(),
            tags == tick_hashes.deep_view(),
            layer@.len() == n,
            forall|j: int| 0 <= j < n ==> is_sha_tag(#[trigger] tags[j]),
            forall|j: int| 0 <= j < n ==> (#[trigger] layer@[j])@ == tag_digest(tags[j]),
        decreases tick_hashes@.len() - n,
    {
        match sha_tag_to_bytes(tick_hashes[n].as_str()) {
            Ok(leaf) => {
                layer.push(leaf);
            },
            Err(msg) => {
                proof {
                    assert(is_first_malformed(tags, n as int));
                    let k = first_malformed(tags);
                    assert(k == n) by {
                        if k < n {
                            assert(is_sha_tag(tags[k]));
                        }
                    }
                    assert(!all_sha_tags(tags));
                }
                return Err(msg);
            },
        }
        n += 1;
    }
    proof {
        assert(layer_digests(layer@) =~= leaf_digests(tags));
    }
    while layer.len() > 2
        invariant
            layer@.len() >= 1,
            merkle_root(layer_digests(layer@)) == merkle_root(leaf_digests(tags)),
        decreases layer@.len(),
    {
        layer = build_next_layer(&layer);
    }
    let top = build_next_layer(&layer);
    proof {
        assert(all_sha_tags(tags));
        assert(layer_digests(top@)[0] == top@[0]@);
        lemma_decode_encode(top@[0]@);
    }
    Ok(bytes_to_sha_tag(&top[0]))
}

/// Tells whether swapping two leaves changes the root of the pair.
///
/// Both tags are decoded, `a` first; a malformed one is rejected as by
/// [`sha_tag_to_bytes`]. For two well-formed tags the answer is exact: the
/// parents of `(a, b)` and of `(b, a)` are computed and compared.
pub fn swap_changes_root(a: &str, b: &str) -> (res: Result<bool, String>)
    ensures
        res is Ok <==> is_sha_tag(a@) && is_sha_tag(b@),
        res matches Ok(changes) ==> changes == (psp_merkle_root(seq![a@, b@]) != psp_merkle_root(
            seq![b@, a@],
        )),
        res matches Err(msg) ==> msg@ == decode_error(
            if is_sha_tag(a@) {
                b@
            } else {
                a@
            },
        ),
{
    let x = match sha_tag_to_bytes(a) {
        Ok(x) => x,
        Err(msg) => {
            return Err(msg);
        },
    };
    let y = match sha_tag_to_bytes(b) {
        Ok(y) => y,
        Err(msg) => {
            return Err(msg);
        },
    };
    let forward = node_hash(&x, &y);
    let backward = node_hash(&y, &x);
    let changes = !same_digest(&forward, &backward);
    proof {
        if changes {
            lemma_order_sensitive(a@, b@);
        } else {
            assert(all_sha_tags(seq![a@, b@]));
            assert(all_sha_tags(seq![b@, a@]));
            assert(leaf_digests(seq![a@, b@]) =~= seq![x@, y@]);
            assert(leaf_digests(seq![b@, a@]) =~= seq![y@, x@]);
            lemma_root_of_two(x@, y@);
            lemma_root_of_two(y@, x@);
        }
    }
    Ok(changes)
}

} // verus!
