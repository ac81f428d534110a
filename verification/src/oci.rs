//! A carapace as an OCI image layout, the form in which registries distribute it.
//!
//! The artifact is an OCI 1.1 image manifest whose layers are the cow blobs of the
//! scutes, from the base to the top, each with its dm-verity salt as an annotation. The
//! verity trees are not shipped: they follow from the cow, the salt and the chain's
//! parameters.

use sha2::{Digest, Sha256};
use vstd::prelude::*;
use vstd::string::*;
use vstd::utf8::encode_utf8;

use crate::json::{
    array_text, array_value, empty_fields, insert_field, json_fields, json_string, json_text, json_texts,
    law_object_is_its_members, lemma_precedes_at, no_fields, number_value, object_of, object_text, object_value,
    precedes, string_value, value_bytes,
};
use crate::text::{decimal, hex_digit};

verus! {

/// The media type of an OCI 1.1 image manifest.
pub const MEDIA_TYPE_OCI_MANIFEST: &'static str = "application/vnd.oci.image.manifest.v1+json";

/// The media type of an OCI image index (`index.json`).
pub const MEDIA_TYPE_OCI_INDEX: &'static str = "application/vnd.oci.image.index.v1+json";

/// The media type of the empty config of an OCI 1.1 artifact.
pub const MEDIA_TYPE_OCI_EMPTY: &'static str = "application/vnd.oci.empty.v1+json";

/// The artifact type of a carapace.
pub const MEDIA_TYPE_PICHI_ARTIFACT: &'static str = "application/vnd.pichi.artifact.v1+json";

/// The media type of a scute's cow.
pub const MEDIA_TYPE_PICHI_SCUTE: &'static str = "application/vnd.pichi.scute.v1";

/// The annotation with a scute's salt, in hexadecimal.
pub const ANN_SCUTE_SALT: &'static str = "dev.pichi.scute.verity.salt";

/// The annotation with the chain's hash algorithm.
pub const ANN_VERITY_ALGO: &'static str = "dev.pichi.carapace.verity.algo";

/// The annotation with the chain's data block size.
pub const ANN_VERITY_DATA_BLOCK: &'static str = "dev.pichi.carapace.verity.data-block-size";

/// The annotation with the chain's hash block size.
pub const ANN_VERITY_HASH_BLOCK: &'static str = "dev.pichi.carapace.verity.hash-block-size";

/// The OCI annotation with the time of creation.
pub const ANN_CREATED: &'static str = "org.opencontainers.image.created";

/// The OCI annotation with the tag.
pub const ANN_REF_NAME: &'static str = "org.opencontainers.image.ref.name";

/// The chunk size of every scute's cow.
pub const SCUTE_CHUNK_SIZE_SECTORS: u32 = 8;

/// The SHA-256 digest of `bytes`.
pub uninterp spec fn sha256(bytes: Seq<u8>) -> Seq<u8>;

/// `bytes` in hexadecimal: two digits each, the high one first.
pub open spec fn hex_text(bytes: Seq<u8>) -> Seq<char>
    decreases bytes.len(),
{
    if bytes.len() == 0 {
        Seq::empty()
    } else {
        hex_text(bytes.drop_last()).push(hex_digit(bytes.last() as int / 16)).push(
            hex_digit(bytes.last() as int % 16),
        )
    }
}

/// `text` holds hexadecimal digits in lower case, and nothing else.
pub open spec fn are_hex_digits(text: Seq<char>) -> bool {
    forall|i: int| 0 <= i < text.len() ==> '0' <= #[trigger] text[i] <= '9' || 'a' <= text[i] <= 'f'
}

/// `sha2::Sha256::digest`: 32 bytes, which follow from `bytes` alone.
#[verifier::external_body]
fn sha256_digest(bytes: &[u8]) -> (r: Vec<u8>)
    ensures
        r@ == sha256(bytes@),
        r@.len() == 32,
{
    Sha256::digest(bytes).to_vec()
}

/// `hex::encode`: two lower-case digits for each byte.
#[verifier::external_body]
fn hex_encode(bytes: &[u8]) -> (r: String)
    ensures
        r@ == hex_text(bytes@),
{
    hex::encode(bytes)
}

/// The name of the blob that holds `bytes`.
pub open spec fn blob_hex(bytes: Seq<u8>) -> Seq<char> {
    hex_text(sha256(bytes))
}

/// The digest by which `bytes` are referred to.
pub open spec fn blob_digest(bytes: Seq<u8>) -> Seq<char> {
    "sha256:"@ + blob_hex(bytes)
}

/// Where a blob goes, in the directory of blobs, and how it is referred to.
#[derive(Debug, PartialEq, Eq)]
pub struct BlobName {
    /// The file's name: the digest in hexadecimal.
    pub hex: String,
    /// The name of the file that is written first, and then renamed.
    pub tmp: String,
    /// The digest, as descriptors give it.
    pub digest: String,
}

impl BlobName {
    /// This is the name of the blob that holds `bytes`: the 64 digits of its digest.
    pub open spec fn names(self, bytes: Seq<u8>) -> bool {
        &&& self.hex@ == blob_hex(bytes)
        &&& self.hex@.len() == 64
        &&& are_hex_digits(self.hex@)
        &&& self.tmp@ == "."@ + blob_hex(bytes) + ".tmp"@
        &&& self.digest@ == blob_digest(bytes)
    }
}

/// Names the blob that holds `bytes`. Its name is its content's digest, so that it need
/// not be written where it is there already.
pub fn put_blob(bytes: &[u8]) -> (r: BlobName)
    ensures
        r.names(bytes@),
{
    let digest_bytes = sha256_digest(bytes);
    proof {
        law_hex_doubles(digest_bytes@);
        law_hex_is_lower_case(digest_bytes@);
    }
    let hex = hex_encode(&digest_bytes);
    let mut tmp = ".".to_string();
    tmp.append(&hex);
    tmp.append(".tmp");
    let mut digest = "sha256:".to_string();
    digest.append(&hex);
    BlobName { hex, tmp, digest }
}

/// One scute to pack: its cow, and its full dm-verity salt.
#[derive(Debug)]
pub struct ScuteLayer {
    pub cow: Vec<u8>,
    pub salt: Vec<u8>,
}

/// What a [`ScuteLayer`] holds.
pub struct ScuteLayerModel {
    pub cow: Seq<u8>,
    pub salt: Seq<u8>,
}

impl View for ScuteLayer {
    type V = ScuteLayerModel;

    open spec fn view(&self) -> ScuteLayerModel {
        ScuteLayerModel { cow: self.cow@, salt: self.salt@ }
    }
}

/// What scutes hold.
pub open spec fn layer_models(scutes: Seq<ScuteLayer>) -> Seq<ScuteLayerModel> {
    scutes.map_values(|s: ScuteLayer| s@)
}

/// The time of creation that is given, if one is.
pub open spec fn stamp(created: Option<&str>) -> Option<Seq<char>> {
    match created {
        Some(ts) => Some(ts@),
        None => None,
    }
}

/// The empty config, `{}`.
pub open spec fn empty_config() -> Seq<u8> {
    seq![123u8, 125u8]
}

/// The descriptor of a cow of `size` bytes, as JSON.
pub open spec fn descriptor_of(digest: Seq<char>, size: nat, salt: Seq<u8>) -> Seq<char> {
    object_text(
        empty_fields().insert("mediaType"@, json_string(MEDIA_TYPE_PICHI_SCUTE@)).insert(
            "digest"@,
            json_string(digest),
        ).insert("size"@, decimal(size)).insert(
            "annotations"@,
            object_text(empty_fields().insert(ANN_SCUTE_SALT@, json_string(hex_text(salt)))),
        ),
    )
}

/// The descriptor of a scute's cow, as JSON.
pub open spec fn descriptor_text(scute: ScuteLayerModel) -> Seq<char> {
    descriptor_of(blob_digest(scute.cow), scute.cow.len(), scute.salt)
}

/// The descriptors of scutes, in order.
pub open spec fn descriptor_texts(scutes: Seq<ScuteLayerModel>) -> Seq<Seq<char>> {
    scutes.map_values(|s: ScuteLayerModel| descriptor_text(s))
}

/// The annotations of the manifest: the chain's parameters, and the time of creation
/// where there is one.
pub open spec fn annotations(created: Option<Seq<char>>) -> Map<Seq<char>, Seq<char>> {
    let parameters = empty_fields().insert(ANN_VERITY_ALGO@, json_string("sha256"@)).insert(
        ANN_VERITY_DATA_BLOCK@,
        json_string("4096"@),
    ).insert(ANN_VERITY_HASH_BLOCK@, json_string("4096"@));
    match created {
        Some(ts) => parameters.insert(ANN_CREATED@, json_string(ts)),
        None => parameters,
    }
}

/// The descriptor of the empty config, as JSON. Its content is there too, in base 64.
pub open spec fn config_of(digest: Seq<char>) -> Seq<char> {
    object_text(
        empty_fields().insert("mediaType"@, json_string(MEDIA_TYPE_OCI_EMPTY@)).insert(
            "digest"@,
            json_string(digest),
        ).insert("size"@, decimal(empty_config().len())).insert("data"@, json_string("e30="@)),
    )
}

/// The manifest of a carapace, as JSON.
pub open spec fn manifest_text(
    scutes: Seq<ScuteLayerModel>,
    created: Option<Seq<char>>,
) -> Seq<char> {
    object_text(
        empty_fields().insert("schemaVersion"@, decimal(2)).insert(
            "mediaType"@,
            json_string(MEDIA_TYPE_OCI_MANIFEST@),
        ).insert("artifactType"@, json_string(MEDIA_TYPE_PICHI_ARTIFACT@)).insert(
            "config"@,
            config_of(blob_digest(empty_config())),
        ).insert("layers"@, array_text(descriptor_texts(scutes))).insert(
            "annotations"@,
            object_text(annotations(created)),
        ),
    )
}

/// The bytes of the manifest.
pub open spec fn manifest_bytes(
    scutes: Seq<ScuteLayerModel>,
    created: Option<Seq<char>>,
) -> Seq<u8> {
    encode_utf8(manifest_text(scutes, created))
}

/// The entry of the index for a manifest of `size` bytes, tagged `reference`, as JSON.
pub open spec fn entry_of(reference: Seq<char>, digest: Seq<char>, size: nat) -> Seq<char> {
    object_text(
        empty_fields().insert("mediaType"@, json_string(MEDIA_TYPE_OCI_MANIFEST@)).insert(
            "artifactType"@,
            json_string(MEDIA_TYPE_PICHI_ARTIFACT@),
        ).insert("digest"@, json_string(digest)).insert("size"@, decimal(size)).insert(
            "annotations"@,
            object_text(empty_fields().insert(ANN_REF_NAME@, json_string(reference))),
        ),
    )
}

/// The index over a manifest of `size` bytes, tagged `reference`, as JSON.
pub open spec fn index_of(reference: Seq<char>, digest: Seq<char>, size: nat) -> Seq<char> {
    object_text(
        empty_fields().insert("schemaVersion"@, decimal(2)).insert(
            "mediaType"@,
            json_string(MEDIA_TYPE_OCI_INDEX@),
        ).insert("manifests"@, array_text(seq![entry_of(reference, digest, size)])),
    )
}

/// The index over `manifest`, tagged `reference`, as JSON.
pub open spec fn index_text(reference: Seq<char>, manifest: Seq<u8>) -> Seq<char> {
    index_of(reference, blob_digest(manifest), manifest.len())
}

/// The bytes of a JSON value: compact, its keys sorted, so that the digest is
/// reproducible.
pub fn to_canonical_json(value: &serde_json::Value) -> (r: Vec<u8>)
    ensures
        r@ == encode_utf8(json_text(*value)),
{
    value_bytes(value).unwrap()
}

/// Sets the field `key` to a string.
fn set_string(
    fields: &mut serde_json::Map<String, serde_json::Value>,
    key: &str,
    text: &str,
)
    ensures
        json_fields(*final(fields)) == json_fields(*old(fields)).insert(key@, json_string(text@)),
{
    insert_field(fields, key.to_string(), string_value(text));
}

/// Sets the field `key` to a number.
fn set_number(fields: &mut serde_json::Map<String, serde_json::Value>, key: &str, n: usize)
    ensures
        json_fields(*final(fields)) == json_fields(*old(fields)).insert(key@, decimal(n as nat)),
{
    insert_field(fields, key.to_string(), number_value(n));
}

/// The descriptor of a scute's cow.
fn descriptor(scute: &ScuteLayer, digest: &str) -> (r: serde_json::Value)
    ensures
        json_text(r) == descriptor_of(digest@, scute@.cow.len(), scute@.salt),
{
    let mut salt = no_fields();
    set_string(&mut salt, ANN_SCUTE_SALT, &hex_encode(&scute.salt));
    let mut fields = no_fields();
    set_string(&mut fields, "mediaType", MEDIA_TYPE_PICHI_SCUTE);
    set_string(&mut fields, "digest", digest);
    set_number(&mut fields, "size", scute.cow.len());
    insert_field(&mut fields, "annotations".to_string(), object_value(salt));
    object_value(fields)
}

/// The manifest over the given layers.
fn manifest(layers: Vec<serde_json::Value>, config_digest: &str, created: Option<&str>) -> (r:
    serde_json::Value)
    requires
        config_digest@ == blob_digest(empty_config()),
    ensures
        forall|scutes: Seq<ScuteLayerModel>|
            json_texts(layers@) == descriptor_texts(scutes) ==> json_text(r)
                == #[trigger] manifest_text(scutes, stamp(created)),
{
    let mut notes = no_fields();
    set_string(&mut notes, ANN_VERITY_ALGO, "sha256");
    set_string(&mut notes, ANN_VERITY_DATA_BLOCK, "4096");
    set_string(&mut notes, ANN_VERITY_HASH_BLOCK, "4096");
    match created {
        Some(ts) => {
            set_string(&mut notes, ANN_CREATED, ts);
        },
        None => {},
    }
    let mut config = no_fields();
    set_string(&mut config, "mediaType", MEDIA_TYPE_OCI_EMPTY);
    set_string(&mut config, "digest", config_digest);
    set_number(&mut config, "size", 2);
    set_string(&mut config, "data", "e30=");
    let mut fields = no_fields();
    set_number(&mut fields, "schemaVersion", 2);
    set_string(&mut fields, "mediaType", MEDIA_TYPE_OCI_MANIFEST);
    set_string(&mut fields, "artifactType", MEDIA_TYPE_PICHI_ARTIFACT);
    insert_field(&mut fields, "config".to_string(), object_value(config));
    insert_field(&mut fields, "layers".to_string(), array_value(layers));
    insert_field(&mut fields, "annotations".to_string(), object_value(notes));
    object_value(fields)
}

/// The index over a manifest of `size` bytes.
fn index(reference: &str, digest: &str, size: usize) -> (r: serde_json::Value)
    ensures
        json_text(r) == index_of(reference@, digest@, size as nat),
{
    let mut tag = no_fields();
    set_string(&mut tag, ANN_REF_NAME, reference);
    let mut entry = no_fields();
    set_string(&mut entry, "mediaType", MEDIA_TYPE_OCI_MANIFEST);
    set_string(&mut entry, "artifactType", MEDIA_TYPE_PICHI_ARTIFACT);
    set_string(&mut entry, "digest", digest);
    set_number(&mut entry, "size", size);
    insert_field(&mut entry, "annotations".to_string(), object_value(tag));
    let only = object_value(entry);
    let ghost text = json_text(only);
    let entries = vec![only];
    assert(json_texts(entries@) =~= seq![text]);
    let mut fields = no_fields();
    set_number(&mut fields, "schemaVersion", 2);
    set_string(&mut fields, "mediaType", MEDIA_TYPE_OCI_INDEX);
    insert_field(&mut fields, "manifests".to_string(), array_value(entries));
    object_value(fields)
}

/// The files of an OCI image layout.
#[derive(Debug, PartialEq, Eq)]
pub struct Layout {
    /// The blob of the empty config, and its content.
    pub config: BlobName,
    pub config_bytes: Vec<u8>,
    /// The blobs of the scutes' cows, in order.
    pub cows: Vec<BlobName>,
    /// The blob of the manifest, and its content.
    pub manifest: BlobName,
    pub manifest_bytes: Vec<u8>,
    /// The content of `oci-layout`.
    pub marker: Vec<u8>,
    /// The content of `index.json`.
    pub index: Vec<u8>,
}

impl Layout {
    /// This is the layout of `scutes`, tagged `reference`.
    pub open spec fn is_layout_of(
        self,
        reference: Seq<char>,
        scutes: Seq<ScuteLayerModel>,
        created: Option<Seq<char>>,
    ) -> bool {
        &&& self.config_bytes@ == empty_config()
        &&& self.config.names(empty_config())
        &&& self.cows@.len() == scutes.len()
        &&& forall|i: int| 0 <= i < scutes.len() ==> (#[trigger] self.cows@[i]).names(scutes[i].cow)
        &&& self.manifest_bytes@ == manifest_bytes(scutes, created)
        &&& self.manifest.names(self.manifest_bytes@)
        &&& self.marker@ == marker_bytes()
        &&& self.index@ == encode_utf8(index_text(reference, self.manifest_bytes@))
    }
}

/// Lays out a carapace, tagged `reference`. `scutes` go from the base to the top;
/// `created` is a timestamp, left out where the artifact is to be reproducible. The
/// digest of the artifact is that of its manifest.
pub fn write_layout(reference: &str, scutes: &[ScuteLayer], created: Option<&str>) -> (r: Layout)
    ensures
        r.is_layout_of(reference@, layer_models(scutes@), stamp(created)),
{
    let config_bytes: Vec<u8> = vec![123u8, 125u8];
    assert(config_bytes@ =~= empty_config());
    let config = put_blob(&config_bytes);
    let mut cows: Vec<BlobName> = Vec::new();
    let mut layers: Vec<serde_json::Value> = Vec::new();
    let ghost models = layer_models(scutes@);
    let mut i: usize = 0;
    while i < scutes.len()
        invariant
            i <= scutes@.len(),
            models == layer_models(scutes@),
            cows@.len() == i,
            layers@.len() == i,
            forall|j: int| 0 <= j < i ==> (#[trigger] cows@[j]).names(models[j].cow),
            forall|j: int| 0 <= j < i ==> json_text(#[trigger] layers@[j]) == descriptor_text(models[j]),
        decreases scutes@.len() - i,
    {
        let name = put_blob(&scutes[i].cow);
        layers.push(descriptor(&scutes[i], &name.digest));
        cows.push(name);
        i += 1;
    }
    assert(json_texts(layers@) =~= descriptor_texts(models));
    let value = manifest(layers, &config.digest, created);
    assert(json_text(value) == manifest_text(models, stamp(created)));
    let bytes = to_canonical_json(&value);
    let name = put_blob(&bytes);
    let listing = index(reference, &name.digest, bytes.len());
    assert(json_text(listing) == index_text(reference@, bytes@));
    let index_bytes = to_canonical_json(&listing);
    Layout {
        config,
        config_bytes,
        cows,
        manifest: name,
        manifest_bytes: bytes,
        marker: vstd::slice::slice_to_vec("{\"imageLayoutVersion\":\"1.0.0\"}".as_bytes()),
        index: index_bytes,
    }
}

/// The files below a directory, by their paths in it.
pub type Files = Map<Seq<char>, Seq<u8>>;

/// Where the blob that holds `bytes` goes.
pub open spec fn blob_path(bytes: Seq<u8>) -> Seq<char> {
    "blobs/sha256/"@ + blob_hex(bytes)
}

/// Where the blob that holds `bytes` is written first.
pub open spec fn tmp_path(bytes: Seq<u8>) -> Seq<char> {
    "blobs/sha256/"@ + ("."@ + blob_hex(bytes) + ".tmp"@)
}

/// The files once the blob that holds `bytes` is put there: it is left alone where it is
/// there already, and written aside and renamed where it is not.
pub open spec fn with_blob(files: Files, bytes: Seq<u8>) -> Files {
    if files.dom().contains(blob_path(bytes)) {
        files
    } else {
        files.remove(tmp_path(bytes)).insert(blob_path(bytes), bytes)
    }
}

/// The files once all of `blobs` are put there, in order.
pub open spec fn with_blobs(files: Files, blobs: Seq<Seq<u8>>) -> Files
    decreases blobs.len(),
{
    if blobs.len() == 0 {
        files
    } else {
        with_blob(with_blobs(files, blobs.drop_last()), blobs.last())
    }
}

/// The blobs of a layout, in the order in which they are put: the config, the cows, the
/// manifest.
pub open spec fn blobs_of(scutes: Seq<ScuteLayerModel>, created: Option<Seq<char>>) -> Seq<Seq<u8>> {
    (seq![empty_config()] + scutes.map_values(|s: ScuteLayerModel| s.cow)).push(
        manifest_bytes(scutes, created),
    )
}

/// The content of `oci-layout`.
pub open spec fn marker_bytes() -> Seq<u8> {
    encode_utf8("{\"imageLayoutVersion\":\"1.0.0\"}"@)
}

/// The files once a layout is written there.
pub open spec fn with_layout(
    files: Files,
    reference: Seq<char>,
    scutes: Seq<ScuteLayerModel>,
    created: Option<Seq<char>>,
) -> Files {
    with_blobs(files, blobs_of(scutes, created)).insert("oci-layout"@, marker_bytes()).insert(
        "index.json"@,
        encode_utf8(index_text(reference, manifest_bytes(scutes, created))),
    )
}

/// A step that puts a blob in its place.
#[derive(Debug, Clone, Copy, PartialEq, Eq)]
pub enum FileStep {
    /// Write the blob's content to its temporary file, through to the disk.
    WriteAside,
    /// Rename the temporary file to the blob's own name.
    RenameInto,
}

/// A file of the layout that is no blob: its path, and its content.
#[derive(Debug, PartialEq, Eq)]
pub struct TopFile<'a> {
    pub path: &'static str,
    pub bytes: &'a [u8],
}

/// The files after a step on the blob that holds `bytes`.
pub open spec fn after_file_step(files: Files, bytes: Seq<u8>, step: FileStep) -> Files {
    match step {
        FileStep::WriteAside => files.insert(tmp_path(bytes), bytes),
        FileStep::RenameInto => files.remove(tmp_path(bytes)).insert(
            blob_path(bytes),
            files[tmp_path(bytes)],
        ),
    }
}

/// The files after a series of steps on the blob that holds `bytes`.
pub open spec fn after_file_steps(files: Files, bytes: Seq<u8>, steps: Seq<FileStep>) -> Files
    decreases steps.len(),
{
    if steps.len() == 0 {
        files
    } else {
        after_file_step(
            after_file_steps(files, bytes, steps.drop_last()),
            bytes,
            steps.last(),
        )
    }
}

impl BlobName {
    /// Where the blob goes, below the layout's directory.
    pub fn path(&self) -> (r: String)
        ensures
            r@ == "blobs/sha256/"@ + self.hex@,
            forall|bytes: Seq<u8>| #[trigger] self.names(bytes) ==> r@ == blob_path(bytes),
    {
        let mut path = "blobs/sha256/".to_string();
        path.append(&self.hex);
        path
    }

    /// Where the blob is written first.
    pub fn tmp_file(&self) -> (r: String)
        ensures
            r@ == "blobs/sha256/"@ + self.tmp@,
            forall|bytes: Seq<u8>| #[trigger] self.names(bytes) ==> r@ == tmp_path(bytes),
    {
        let mut path = "blobs/sha256/".to_string();
        path.append(&self.tmp);
        path
    }
}

/// The steps that put a blob in its place, given whether it is there already.
pub open spec fn steps_of(present: bool) -> Seq<FileStep> {
    if present {
        Seq::empty()
    } else {
        seq![FileStep::WriteAside, FileStep::RenameInto]
    }
}

/// What is to be done to put a blob in its place, given whether it is there already:
/// nothing then, else it is written aside and renamed.
pub fn put_steps(present: bool) -> (r: Vec<FileStep>)
    ensures
        r@ == steps_of(present),
        forall|files: Files, bytes: Seq<u8>|
            present == files.dom().contains(blob_path(bytes)) ==> #[trigger] after_file_steps(
                files,
                bytes,
                r@,
            ) == with_blob(files, bytes),
{
    if present {
        return Vec::new();
    }
    let steps = vec![FileStep::WriteAside, FileStep::RenameInto];
    assert(steps@ =~= seq![FileStep::WriteAside, FileStep::RenameInto]);
    assert forall|files: Files, bytes: Seq<u8>|
        present == files.dom().contains(blob_path(bytes)) implies #[trigger] after_file_steps(
        files,
        bytes,
        steps@,
    ) == with_blob(files, bytes) by {
        lemma_steps_put_the_blob(files, bytes);
    }
    steps
}

/// The files once those that are no blobs are written, in order.
pub open spec fn with_top_files(files: Files, tops: Seq<TopFile<'_>>) -> Files
    decreases tops.len(),
{
    if tops.len() == 0 {
        files
    } else {
        with_top_files(files, tops.drop_last()).insert(tops.last().path@, tops.last().bytes@)
    }
}

/// The files once the first `n` blobs of `layout` are put, each by the steps that are due
/// where it is there already, or is not.
pub open spec fn with_first_blobs(
    files: Files,
    layout: Layout,
    scutes: Seq<ScuteLayer>,
    n: nat,
) -> Files
    decreases n,
{
    if n == 0 {
        files
    } else {
        let before = with_first_blobs(files, layout, scutes, (n - 1) as nat);
        let path = "blobs/sha256/"@ + layout.blob_name(n - 1).hex@;
        after_file_steps(
            before,
            layout.blob_bytes(scutes, n - 1),
            steps_of(before.dom().contains(path)),
        )
    }
}

impl Layout {
    /// How many blobs there are to put.
    pub fn blob_count(&self) -> (r: usize)
        requires
            self.cows@.len() + 2 <= usize::MAX,
        ensures
            r == self.cows@.len() + 2,
    {
        self.cows.len() + 2
    }

    /// Blob number `k` to put, and its content. `scutes` are those that were laid out.
    pub fn blob<'a>(&'a self, scutes: &'a [ScuteLayer], k: usize) -> (r: (&'a BlobName, &'a [u8]))
        requires
            scutes@.len() == self.cows@.len(),
            k < self.cows@.len() + 2,
        ensures
            *r.0 == self.blob_name(k as int),
            r.1@ == self.blob_bytes(scutes@, k as int),
    {
        if k == 0 {
            (&self.config, &self.config_bytes)
        } else if k <= self.cows.len() {
            (&self.cows[k - 1], &scutes[k - 1].cow)
        } else {
            (&self.manifest, &self.manifest_bytes)
        }
    }

    /// The name of blob number `k`: the config, the cows, the manifest.
    pub open spec fn blob_name(self, k: int) -> BlobName {
        if k == 0 {
            self.config
        } else if k <= self.cows@.len() {
            self.cows@[k - 1]
        } else {
            self.manifest
        }
    }

    /// The content of blob number `k`.
    pub open spec fn blob_bytes(self, scutes: Seq<ScuteLayer>, k: int) -> Seq<u8> {
        if k == 0 {
            self.config_bytes@
        } else if k <= self.cows@.len() {
            scutes[k - 1].cow@
        } else {
            self.manifest_bytes@
        }
    }

    /// The files to write once the blobs are there, in order. Each replaces what is there
    /// under its path.
    pub fn top_files(&self) -> (r: Vec<TopFile<'_>>)
        ensures
            r@.len() == 2,
            r@[0].path@ == "oci-layout"@ && r@[0].bytes@ == self.marker@,
            r@[1].path@ == "index.json"@ && r@[1].bytes@ == self.index@,
            forall|files: Files|
                #[trigger] with_top_files(files, r@) == files.insert(
                    "oci-layout"@,
                    self.marker@,
                ).insert("index.json"@, self.index@),
    {
        let tops = vec![
            TopFile { path: "oci-layout", bytes: &self.marker },
            TopFile { path: "index.json", bytes: &self.index },
        ];
        proof {
            assert forall|files: Files|
                #[trigger] with_top_files(files, tops@) == files.insert(
                    "oci-layout"@,
                    self.marker@,
                ).insert("index.json"@, self.index@) by {
                let first = tops@.drop_last();
                assert(with_top_files(files, first.drop_last()) == files);
                assert(with_top_files(files, first) == files.insert("oci-layout"@, self.marker@));
            }
        }
        tops
    }
}

/// The salt of a base scute: 32 zeroes.
pub open spec fn base_salt() -> Seq<u8> {
    Seq::new(32, |i: int| 0u8)
}

/// Lays out a carapace of one base scute over the raw image `raw`, with the cow that
/// `emit` makes of the image and the chunk size. Returns the scute, whose cow the layout's
/// blob holds, and the layout; or the failure of `emit`.
pub fn import_raw<E, F: Fn(&[u8], u32) -> Result<Vec<u8>, E>>(
    raw: &[u8],
    reference: &str,
    created: Option<&str>,
    emit: F,
) -> (r: Result<(ScuteLayer, Layout), E>)
    requires
        emit.requires((raw, SCUTE_CHUNK_SIZE_SECTORS)),
    ensures
        match r {
            Ok((scute, layout)) => {
                &&& emit.ensures((raw, SCUTE_CHUNK_SIZE_SECTORS), Ok(scute.cow))
                &&& scute.salt@ == base_salt()
                &&& layout.is_layout_of(reference@, seq![scute@], stamp(created))
            },
            Err(e) => emit.ensures((raw, SCUTE_CHUNK_SIZE_SECTORS), Err(e)),
        },
{
    let cow = match emit(raw, SCUTE_CHUNK_SIZE_SECTORS) {
        Ok(cow) => cow,
        Err(e) => {
            return Err(e);
        },
    };
    let salt: Vec<u8> = vec![0u8; 32];
    assert(salt@ =~= base_salt());
    let mut scutes: Vec<ScuteLayer> = vec![ScuteLayer { cow, salt }];
    let layout = write_layout(reference, &scutes, created);
    assert(layer_models(scutes@) =~= seq![scutes@[0]@]);
    let scute = scutes.pop().unwrap();
    Ok((scute, layout))
}

/// Two byte sequences with the same hexadecimal text are the same: a salt can be read
/// back from its annotation.
pub proof fn law_hex_is_one_to_one(a: Seq<u8>, b: Seq<u8>)
    requires
        hex_text(a) == hex_text(b),
    ensures
        a == b,
    decreases a.len(),
{
    let text = hex_text(a);
    if a.len() == 0 {
        if b.len() > 0 {
            assert(text.len() > 0);
        }
        assert(a =~= b);
    } else {
        assert(text.len() > 0);
        assert(b.len() > 0);
        assert(text.last() == hex_digit(a.last() as int % 16));
        assert(text.last() == hex_digit(b.last() as int % 16));
        assert(text.drop_last().last() == hex_digit(a.last() as int / 16));
        assert(text.drop_last().last() == hex_digit(b.last() as int / 16));
        assert(text.drop_last().drop_last() =~= hex_text(a.drop_last()));
        assert(text.drop_last().drop_last() =~= hex_text(b.drop_last()));
        law_hex_is_one_to_one(a.drop_last(), b.drop_last());
        assert(a.last() == b.last());
        assert(a =~= a.drop_last().push(a.last()));
        assert(b =~= b.drop_last().push(b.last()));
    }
}

/// Hexadecimal text has two digits for each byte.
pub proof fn law_hex_doubles(bytes: Seq<u8>)
    ensures
        hex_text(bytes).len() == 2 * bytes.len(),
    decreases bytes.len(),
{
    if bytes.len() > 0 {
        law_hex_doubles(bytes.drop_last());
    }
}

/// Hexadecimal text is in lower case.
pub proof fn law_hex_is_lower_case(bytes: Seq<u8>)
    ensures
        are_hex_digits(hex_text(bytes)),
    decreases bytes.len(),
{
    if bytes.len() > 0 {
        let front = hex_text(bytes.drop_last());
        law_hex_is_lower_case(bytes.drop_last());
        let text = hex_text(bytes);
        assert forall|i: int| 0 <= i < text.len() implies '0' <= #[trigger] text[i] <= '9' || 'a'
            <= text[i] <= 'f' by {
            if i < front.len() {
                assert(text[i] == front[i]);
            }
        }
    }
}

/// The digest of an artifact is `sha256:` and 64 hexadecimal digits in lower case, which
/// are the SHA-256 of the manifest's bytes.
pub proof fn law_digest_has_64_digits(
    layout: Layout,
    reference: Seq<char>,
    scutes: Seq<ScuteLayerModel>,
    created: Option<Seq<char>>,
)
    requires
        layout.is_layout_of(reference, scutes, created),
    ensures
        layout.manifest.digest@ == "sha256:"@ + hex_text(sha256(layout.manifest_bytes@)),
        hex_text(sha256(layout.manifest_bytes@)).len() == 64,
        are_hex_digits(hex_text(sha256(layout.manifest_bytes@))),
{
}

/// What a layout refers to, it holds: the manifest gives each layer, and the config, by
/// the digest of a blob that is written, and the index gives the manifest by the digest
/// of its blob and its real size.
pub proof fn law_references_are_held(
    layout: Layout,
    reference: Seq<char>,
    scutes: Seq<ScuteLayerModel>,
    created: Option<Seq<char>>,
)
    requires
        layout.is_layout_of(reference, scutes, created),
    ensures
        forall|i: int|
            0 <= i < scutes.len() ==> #[trigger] descriptor_texts(scutes)[i] == descriptor_of(
                layout.cows@[i].digest@,
                scutes[i].cow.len(),
                scutes[i].salt,
            ),
        config_of(blob_digest(empty_config())) == config_of(layout.config.digest@),
        layout.index@ == encode_utf8(
            index_of(reference, layout.manifest.digest@, layout.manifest_bytes@.len()),
        ),
{
    assert forall|i: int| 0 <= i < scutes.len() implies #[trigger] descriptor_texts(scutes)[i]
        == descriptor_of(
        layout.cows@[i].digest@,
        scutes[i].cow.len(),
        scutes[i].salt,
    ) by {
        assert(layout.cows@[i].names(scutes[i].cow));
    }
}

/// A layout is reproducible: the same scutes give the same blobs, and the same digest,
/// whatever the tag.
pub proof fn law_artifact_ignores_its_tag(
    a: Layout,
    b: Layout,
    tag_a: Seq<char>,
    tag_b: Seq<char>,
    scutes: Seq<ScuteLayerModel>,
    created: Option<Seq<char>>,
)
    requires
        a.is_layout_of(tag_a, scutes, created),
        b.is_layout_of(tag_b, scutes, created),
    ensures
        a.manifest.digest@ == b.manifest.digest@,
        a.manifest_bytes@ == b.manifest_bytes@,
        a.config.digest@ == b.config.digest@,
        forall|i: int|
            0 <= i < scutes.len() ==> (#[trigger] a.cows@[i]).digest@ == b.cows@[i].digest@,
        tag_a == tag_b ==> a.index@ == b.index@,
{
    assert forall|i: int| 0 <= i < scutes.len() implies (#[trigger] a.cows@[i]).digest@
        == b.cows@[i].digest@ by {
        assert(a.cows@[i].names(scutes[i].cow) && b.cows@[i].names(scutes[i].cow));
    }
}

/// Blobs are addressed by their content: scutes with the same cow share one, whatever
/// their salts.
pub proof fn law_equal_cows_share_a_blob(
    layout: Layout,
    reference: Seq<char>,
    scutes: Seq<ScuteLayerModel>,
    created: Option<Seq<char>>,
    i: int,
    j: int,
)
    requires
        layout.is_layout_of(reference, scutes, created),
        0 <= i < scutes.len(),
        0 <= j < scutes.len(),
        scutes[i].cow == scutes[j].cow,
    ensures
        layout.cows@[i].hex@ == layout.cows@[j].hex@,
        layout.cows@[i].digest@ == layout.cows@[j].digest@,
{
    assert(layout.cows@[i].names(scutes[i].cow) && layout.cows@[j].names(scutes[j].cow));
}

/// The blobs that a layout has put are those of its scutes, each under its own name.
pub proof fn law_blobs_are_the_layouts(
    layout: Layout,
    reference: Seq<char>,
    scutes: Seq<ScuteLayer>,
    created: Option<Seq<char>>,
    k: int,
)
    requires
        layout.is_layout_of(reference, layer_models(scutes), created),
        0 <= k < blobs_of(layer_models(scutes), created).len(),
    ensures
        blobs_of(layer_models(scutes), created).len() == layout.cows@.len() + 2,
        layout.blob_bytes(scutes, k) == blobs_of(layer_models(scutes), created)[k],
        layout.blob_name(k).names(layout.blob_bytes(scutes, k)),
{
    if 0 < k <= scutes.len() {
        assert(layout.cows@[k - 1].names(layer_models(scutes)[k - 1].cow));
    }
}

/// The path of a blob is never that of a temporary file, nor of a file that is no blob.
proof fn lemma_blob_paths(a: Seq<u8>, b: Seq<u8>)
    ensures
        blob_path(a) != tmp_path(b),
        blob_path(a) != "oci-layout"@,
        blob_path(a) != "index.json"@,
        tmp_path(a) != "oci-layout"@,
        tmp_path(a) != "index.json"@,
        "oci-layout"@ != "index.json"@,
{
    reveal_strlit("blobs/sha256/");
    reveal_strlit(".");
    reveal_strlit(".tmp");
    reveal_strlit("oci-layout");
    reveal_strlit("index.json");
    law_hex_is_lower_case(sha256(a));
    let hex = blob_hex(a);
    let aside = "."@ + blob_hex(b) + ".tmp"@;
    assert(blob_path(a)[0] == 'b');
    assert(tmp_path(a)[0] == 'b');
    assert("oci-layout"@[0] == 'o');
    assert("index.json"@[0] == 'i');
    if blob_path(a) == tmp_path(b) {
        let n = "blobs/sha256/"@.len() as int;
        assert(blob_path(a).len() == n + hex.len());
        assert(tmp_path(b).len() == n + aside.len());
        assert(tmp_path(b)[n] == '.');
        assert(blob_path(a)[n] == hex[0]);
    }
}

/// To put a blob changes no file but its own and its temporary one. Where the blob was
/// there already, nothing changes at all; where it was not, it then holds its bytes, and
/// no temporary file is left.
pub proof fn law_put_leaves_the_other_files(files: Files, bytes: Seq<u8>)
    ensures
        forall|path: Seq<char>|
            path != blob_path(bytes) && path != tmp_path(bytes) ==> (files.dom().contains(path)
                == #[trigger] with_blob(files, bytes).dom().contains(path)) && files[path]
                == with_blob(files, bytes)[path],
        files.dom().contains(blob_path(bytes)) ==> with_blob(files, bytes) == files,
        !files.dom().contains(blob_path(bytes)) ==> with_blob(files, bytes)[blob_path(bytes)]
            == bytes && !with_blob(files, bytes).dom().contains(tmp_path(bytes)),
        with_blob(files, bytes).dom().contains(blob_path(bytes)),
{
    lemma_blob_paths(bytes, bytes);
}

/// To put a blob a second time changes nothing.
pub proof fn law_put_twice_is_put_once(files: Files, bytes: Seq<u8>)
    ensures
        with_blob(with_blob(files, bytes), bytes) == with_blob(files, bytes),
{
}

/// A blob that is there stays as it is, whatever blobs are put.
proof fn lemma_blobs_stay(files: Files, blobs: Seq<Seq<u8>>, bytes: Seq<u8>)
    requires
        files.dom().contains(blob_path(bytes)),
    ensures
        with_blobs(files, blobs).dom().contains(blob_path(bytes)),
        with_blobs(files, blobs)[blob_path(bytes)] == files[blob_path(bytes)],
    decreases blobs.len(),
{
    if blobs.len() > 0 {
        lemma_blobs_stay(files, blobs.drop_last(), bytes);
        lemma_blob_paths(bytes, blobs.last());
    }
}

/// Every blob that was put is there.
proof fn lemma_blobs_are_there(files: Files, blobs: Seq<Seq<u8>>, k: int)
    requires
        0 <= k < blobs.len(),
    ensures
        with_blobs(files, blobs).dom().contains(blob_path(blobs[k])),
    decreases blobs.len(),
{
    let front = blobs.drop_last();
    let before = with_blobs(files, front);
    if k < front.len() {
        lemma_blobs_are_there(files, front, k);
        assert(front[k] == blobs[k]);
        lemma_blob_paths(blobs[k], blobs.last());
    }
}

/// Where all blobs are there, to put them changes nothing.
proof fn lemma_nothing_to_put(files: Files, blobs: Seq<Seq<u8>>)
    requires
        forall|k: int|
            0 <= k < blobs.len() ==> files.dom().contains(blob_path(#[trigger] blobs[k])),
    ensures
        with_blobs(files, blobs) == files,
    decreases blobs.len(),
{
    if blobs.len() > 0 {
        let front = blobs.drop_last();
        assert forall|k: int| 0 <= k < front.len() implies files.dom().contains(
            blob_path(#[trigger] front[k]),
        ) by {
            assert(front[k] == blobs[k]);
        }
        lemma_nothing_to_put(files, front);
        assert(files.dom().contains(blob_path(blobs[blobs.len() - 1])));
    }
}

/// A layout that is written into the directory of another replaces the index, so that it
/// has the new artifact for its one entry. Every blob that was there is still there, with
/// the same bytes; and so is every one of the new layout's.
pub proof fn law_second_layout_keeps_the_blobs(
    files: Files,
    reference: Seq<char>,
    scutes: Seq<ScuteLayerModel>,
    created: Option<Seq<char>>,
    bytes: Seq<u8>,
    k: int,
)
    requires
        0 <= k < blobs_of(scutes, created).len(),
    ensures
        ({
            let after = with_layout(files, reference, scutes, created);
            &&& after["index.json"@] == encode_utf8(
                index_text(reference, manifest_bytes(scutes, created)),
            )
            &&& after["oci-layout"@] == marker_bytes()
            &&& files.dom().contains(blob_path(bytes)) ==> after.dom().contains(blob_path(bytes))
                && after[blob_path(bytes)] == files[blob_path(bytes)]
            &&& after.dom().contains(blob_path(blobs_of(scutes, created)[k]))
        }),
{
    let blobs = blobs_of(scutes, created);
    lemma_blob_paths(bytes, bytes);
    lemma_blob_paths(blobs[k], blobs[k]);
    lemma_blobs_are_there(files, blobs, k);
    if files.dom().contains(blob_path(bytes)) {
        lemma_blobs_stay(files, blobs, bytes);
    }
}

/// To write a layout a second time changes no file.
pub proof fn law_same_layout_changes_nothing(
    files: Files,
    reference: Seq<char>,
    scutes: Seq<ScuteLayerModel>,
    created: Option<Seq<char>>,
)
    ensures
        with_layout(
            with_layout(files, reference, scutes, created),
            reference,
            scutes,
            created,
        ) == with_layout(files, reference, scutes, created),
{
    let blobs = blobs_of(scutes, created);
    let once = with_layout(files, reference, scutes, created);
    assert forall|k: int| 0 <= k < blobs.len() implies once.dom().contains(
        blob_path(#[trigger] blobs[k]),
    ) by {
        lemma_blobs_are_there(files, blobs, k);
    }
    lemma_nothing_to_put(once, blobs);
    lemma_blob_paths(empty_config(), empty_config());
    assert(with_layout(once, reference, scutes, created) =~= once);
}

/// The steps on blob after blob, and then the other files, make the layout: that is what
/// the directory holds in the end.
pub proof fn law_steps_write_the_layout(
    files: Files,
    layout: Layout,
    reference: Seq<char>,
    scutes: Seq<ScuteLayer>,
    created: Option<Seq<char>>,
)
    requires
        layout.is_layout_of(reference, layer_models(scutes), created),
    ensures
        with_first_blobs(files, layout, scutes, layout.cows@.len() + 2).insert(
            "oci-layout"@,
            layout.marker@,
        ).insert("index.json"@, layout.index@) == with_layout(
            files,
            reference,
            layer_models(scutes),
            created,
        ),
{
    let blobs = blobs_of(layer_models(scutes), created);
    lemma_first_blobs(files, layout, reference, scutes, created, blobs.len());
    assert(blobs.take(blobs.len() as int) =~= blobs);
}

proof fn lemma_first_blobs(
    files: Files,
    layout: Layout,
    reference: Seq<char>,
    scutes: Seq<ScuteLayer>,
    created: Option<Seq<char>>,
    n: nat,
)
    requires
        layout.is_layout_of(reference, layer_models(scutes), created),
        n <= blobs_of(layer_models(scutes), created).len(),
    ensures
        with_first_blobs(files, layout, scutes, n) == with_blobs(
            files,
            blobs_of(layer_models(scutes), created).take(n as int),
        ),
    decreases n,
{
    let blobs = blobs_of(layer_models(scutes), created);
    if n > 0 {
        let m = (n - 1) as nat;
        lemma_first_blobs(files, layout, reference, scutes, created, m);
        law_blobs_are_the_layouts(layout, reference, scutes, created, m as int);
        assert(blobs.take(n as int).drop_last() =~= blobs.take(m as int));
        assert(blobs.take(n as int).last() == blobs[m as int]);
        lemma_steps_put_the_blob(with_first_blobs(files, layout, scutes, m), blobs[m as int]);
    }
}

/// The steps that are due put a blob in its place.
proof fn lemma_steps_put_the_blob(files: Files, bytes: Seq<u8>)
    ensures
        after_file_steps(files, bytes, steps_of(files.dom().contains(blob_path(bytes))))
            == with_blob(files, bytes),
{
    if !files.dom().contains(blob_path(bytes)) {
        let steps = steps_of(false);
        let first = steps.drop_last();
        assert(first =~= seq![FileStep::WriteAside]);
        assert(after_file_steps(files, bytes, first.drop_last()) == files);
        let aside = files.insert(tmp_path(bytes), bytes);
        assert(after_file_steps(files, bytes, first) == aside);
        assert(aside.remove(tmp_path(bytes)).insert(blob_path(bytes), bytes) =~= with_blob(
            files,
            bytes,
        ));
    }
}

/// What is there once blobs are put was there before, or is one of them.
proof fn lemma_only_blobs_are_added(files: Files, blobs: Seq<Seq<u8>>, path: Seq<char>)
    requires
        with_blobs(files, blobs).dom().contains(path),
    ensures
        files.dom().contains(path) || exists|k: int|
            0 <= k < blobs.len() && path == blob_path(#[trigger] blobs[k]),
    decreases blobs.len(),
{
    if blobs.len() > 0 {
        let front = blobs.drop_last();
        if path == blob_path(blobs.last()) {
            assert(path == blob_path(blobs[blobs.len() - 1]));
        } else {
            lemma_only_blobs_are_added(files, front, path);
            if !files.dom().contains(path) {
                let k = choose|k: int|
                    0 <= k < front.len() && path == blob_path(#[trigger] front[k]);
                assert(path == blob_path(blobs[k]));
            }
        }
    }
}

/// No two different blobs go to the same path: no two of them have the same digest.
pub open spec fn are_told_apart(blobs: Seq<Seq<u8>>) -> bool {
    forall|i: int, j: int|
        0 <= i < blobs.len() && 0 <= j < blobs.len() && blob_path(#[trigger] blobs[i]) == blob_path(
            #[trigger] blobs[j],
        ) ==> blobs[i] == blobs[j]
}

/// Those of `blobs` that are there already hold their bytes.
pub open spec fn are_intact(files: Files, blobs: Seq<Seq<u8>>) -> bool {
    forall|k: int|
        0 <= k < blobs.len() && files.dom().contains(blob_path(#[trigger] blobs[k]))
            ==> files[blob_path(blobs[k])] == blobs[k]
}

proof fn lemma_blobs_hold_their_bytes(files: Files, blobs: Seq<Seq<u8>>, k: int)
    requires
        are_told_apart(blobs),
        are_intact(files, blobs),
        0 <= k < blobs.len(),
    ensures
        with_blobs(files, blobs)[blob_path(blobs[k])] == blobs[k],
    decreases blobs.len(),
{
    let front = blobs.drop_last();
    let last = blobs.len() - 1;
    let before = with_blobs(files, front);
    let path = blob_path(blobs[k]);
    assert forall|i: int| 0 <= i < front.len() implies #[trigger] front[i] == blobs[i] by {}
    assert(are_told_apart(front));
    assert(are_intact(files, front));
    lemma_blob_paths(blobs[k], blobs[last]);
    if k < last {
        lemma_blobs_hold_their_bytes(files, front, k);
        lemma_blobs_are_there(files, front, k);
    } else if before.dom().contains(path) {
        lemma_only_blobs_are_added(files, front, path);
        if files.dom().contains(path) {
            lemma_blobs_stay(files, front, blobs[k]);
        } else {
            let j = choose|j: int| 0 <= j < front.len() && path == blob_path(#[trigger] front[j]);
            lemma_blobs_hold_their_bytes(files, front, j);
            assert(blobs[j] == blobs[k]);
        }
    }
}

/// Once a layout is written, the file of each of its blobs holds that blob, provided that
/// no two different ones have the same digest and that those that were there before were
/// intact.
pub proof fn law_layout_holds_its_blobs(
    files: Files,
    reference: Seq<char>,
    scutes: Seq<ScuteLayerModel>,
    created: Option<Seq<char>>,
    k: int,
)
    requires
        are_told_apart(blobs_of(scutes, created)),
        are_intact(files, blobs_of(scutes, created)),
        0 <= k < blobs_of(scutes, created).len(),
    ensures
        with_layout(files, reference, scutes, created).dom().contains(
            blob_path(blobs_of(scutes, created)[k]),
        ),
        with_layout(files, reference, scutes, created)[blob_path(blobs_of(scutes, created)[k])]
            == blobs_of(scutes, created)[k],
{
    let blobs = blobs_of(scutes, created);
    lemma_blob_paths(blobs[k], blobs[k]);
    lemma_blobs_are_there(files, blobs, k);
    lemma_blobs_hold_their_bytes(files, blobs, k);
}

/// A layout adds no file but its blobs, `oci-layout` and `index.json`; in a directory
/// that was empty it leaves nothing else.
pub proof fn law_layout_adds_nothing_else(
    files: Files,
    reference: Seq<char>,
    scutes: Seq<ScuteLayerModel>,
    created: Option<Seq<char>>,
    path: Seq<char>,
)
    requires
        with_layout(files, reference, scutes, created).dom().contains(path),
    ensures
        ({
            ||| files.dom().contains(path)
            ||| path == "oci-layout"@
            ||| path == "index.json"@
            ||| exists|k: int|
                0 <= k < blobs_of(scutes, created).len() && path == blob_path(
                    #[trigger] blobs_of(scutes, created)[k],
                )
        }),
{
    if path != "oci-layout"@ && path != "index.json"@ {
        lemma_only_blobs_are_added(files, blobs_of(scutes, created), path);
    }
}

/// The keys of the descriptors, in order.
proof fn lemma_key_order()
    ensures
        precedes("annotations"@, "artifactType"@),
        precedes("annotations"@, "digest"@),
        precedes("artifactType"@, "config"@),
        precedes("artifactType"@, "digest"@),
        precedes("config"@, "layers"@),
        precedes("data"@, "digest"@),
        precedes("digest"@, "mediaType"@),
        precedes("layers"@, "mediaType"@),
        precedes("manifests"@, "mediaType"@),
        precedes("mediaType"@, "schemaVersion"@),
        precedes("mediaType"@, "size"@),
{
    reveal_strlit("annotations");
    reveal_strlit("artifactType");
    reveal_strlit("config");
    reveal_strlit("data");
    reveal_strlit("digest");
    reveal_strlit("layers");
    reveal_strlit("manifests");
    reveal_strlit("mediaType");
    reveal_strlit("schemaVersion");
    reveal_strlit("size");
    assert("annotations"@.take(1) =~= "artifactType"@.take(1));
    lemma_precedes_at("annotations"@, "artifactType"@, 1);
    assert("annotations"@.take(0) =~= "digest"@.take(0));
    lemma_precedes_at("annotations"@, "digest"@, 0);
    assert("artifactType"@.take(0) =~= "config"@.take(0));
    lemma_precedes_at("artifactType"@, "config"@, 0);
    assert("artifactType"@.take(0) =~= "digest"@.take(0));
    lemma_precedes_at("artifactType"@, "digest"@, 0);
    assert("config"@.take(0) =~= "layers"@.take(0));
    lemma_precedes_at("config"@, "layers"@, 0);
    assert("data"@.take(1) =~= "digest"@.take(1));
    lemma_precedes_at("data"@, "digest"@, 1);
    assert("digest"@.take(0) =~= "mediaType"@.take(0));
    lemma_precedes_at("digest"@, "mediaType"@, 0);
    assert("layers"@.take(0) =~= "mediaType"@.take(0));
    lemma_precedes_at("layers"@, "mediaType"@, 0);
    assert("manifests"@.take(1) =~= "mediaType"@.take(1));
    lemma_precedes_at("manifests"@, "mediaType"@, 1);
    assert("mediaType"@.take(0) =~= "schemaVersion"@.take(0));
    lemma_precedes_at("mediaType"@, "schemaVersion"@, 0);
    assert("mediaType"@.take(0) =~= "size"@.take(0));
    lemma_precedes_at("mediaType"@, "size"@, 0);
}

/// The keys of the manifest's annotations, in order.
proof fn lemma_annotation_order()
    ensures
        precedes("dev.pichi.carapace.verity.algo"@, "dev.pichi.carapace.verity.data-block-size"@),
        precedes(
            "dev.pichi.carapace.verity.data-block-size"@,
            "dev.pichi.carapace.verity.hash-block-size"@,
        ),
        precedes(
            "dev.pichi.carapace.verity.hash-block-size"@,
            "org.opencontainers.image.created"@,
        ),
{
    reveal_strlit("dev.pichi.carapace.verity.algo");
    reveal_strlit("dev.pichi.carapace.verity.data-block-size");
    reveal_strlit("dev.pichi.carapace.verity.hash-block-size");
    reveal_strlit("org.opencontainers.image.created");
    let a = "dev.pichi.carapace.verity.algo"@;
    let b = "dev.pichi.carapace.verity.data-block-size"@;
    let c = "dev.pichi.carapace.verity.hash-block-size"@;
    let d = "org.opencontainers.image.created"@;
    assert(a.take(26) =~= b.take(26));
    lemma_precedes_at(a, b, 26);
    assert(b.take(26) =~= c.take(26));
    lemma_precedes_at(b, c, 26);
    assert(c.take(0) =~= d.take(0));
    lemma_precedes_at(c, d, 0);
}

/// The descriptor of a layer gives its media type, the digest of its cow, the length of the
/// cow in bytes, and its salt, and nothing else.
pub proof fn law_layer_is_described_by_its_cow(scute: ScuteLayerModel)
    ensures
        descriptor_text(scute) == object_of(
            seq![
                (
                    "annotations"@,
                    object_of(
                        seq![("dev.pichi.scute.verity.salt"@, json_string(hex_text(scute.salt)))],
                    ),
                ),
                ("digest"@, json_string("sha256:"@ + hex_text(sha256(scute.cow)))),
                ("mediaType"@, json_string("application/vnd.pichi.scute.v1"@)),
                ("size"@, decimal(scute.cow.len())),
            ],
        ),
{
    lemma_key_order();
    let salt = json_string(hex_text(scute.salt));
    let inner = seq![("dev.pichi.scute.verity.salt"@, salt)];
    let notes = empty_fields().insert(ANN_SCUTE_SALT@, salt);
    assert(inner[0].0 == ANN_SCUTE_SALT@);
    law_object_is_its_members(notes, inner);
    let members = seq![
        ("annotations"@, object_of(inner)),
        ("digest"@, json_string("sha256:"@ + hex_text(sha256(scute.cow)))),
        ("mediaType"@, json_string("application/vnd.pichi.scute.v1"@)),
        ("size"@, decimal(scute.cow.len())),
    ];
    let fields = empty_fields().insert("mediaType"@, members[2].1).insert(
        "digest"@,
        members[1].1,
    ).insert("size"@, members[3].1).insert("annotations"@, members[0].1);
    lemma_keys_differ();
    assert(members[0].0 == "annotations"@ && members[1].0 == "digest"@ && members[2].0
        == "mediaType"@ && members[3].0 == "size"@);
    law_object_is_its_members(fields, members);
}

/// The keys all differ.
proof fn lemma_keys_differ()
    ensures
        "annotations"@.len() == 11,
        "artifactType"@.len() == 12,
        "config"@.len() == 6 && "config"@[0] == 'c',
        "data"@.len() == 4 && "data"@[0] == 'd',
        "digest"@.len() == 6 && "digest"@[0] == 'd',
        "layers"@.len() == 6 && "layers"@[0] == 'l',
        "manifests"@.len() == 9 && "manifests"@[1] == 'a',
        "mediaType"@.len() == 9 && "mediaType"@[1] == 'e',
        "schemaVersion"@.len() == 13,
        "size"@.len() == 4 && "size"@[0] == 's',
{
    reveal_strlit("annotations");
    reveal_strlit("artifactType");
    reveal_strlit("config");
    reveal_strlit("data");
    reveal_strlit("digest");
    reveal_strlit("layers");
    reveal_strlit("manifests");
    reveal_strlit("mediaType");
    reveal_strlit("schemaVersion");
    reveal_strlit("size");
}

/// The config of an artifact is the empty one, described by its digest and its two bytes.
proof fn lemma_config_text()
    ensures
        config_of(blob_digest(empty_config())) == object_of(
            seq![
                ("data"@, json_string("e30="@)),
                ("digest"@, json_string("sha256:"@ + hex_text(sha256(seq![123u8, 125u8])))),
                ("mediaType"@, json_string("application/vnd.oci.empty.v1+json"@)),
                ("size"@, decimal(2)),
            ],
        ),
{
    lemma_key_order();
    lemma_keys_differ();
    let members = seq![
        ("data"@, json_string("e30="@)),
        ("digest"@, json_string("sha256:"@ + hex_text(sha256(seq![123u8, 125u8])))),
        ("mediaType"@, json_string("application/vnd.oci.empty.v1+json"@)),
        ("size"@, decimal(2)),
    ];
    let fields = empty_fields().insert("mediaType"@, members[2].1).insert(
        "digest"@,
        members[1].1,
    ).insert("size"@, members[3].1).insert("data"@, members[0].1);
    assert(members[0].0 == "data"@ && members[1].0 == "digest"@ && members[2].0 == "mediaType"@
        && members[3].0 == "size"@);
    law_object_is_its_members(fields, members);
}

/// The annotations of an artifact say what its trees are built with, and when it was
/// created, where that is told.
pub proof fn law_annotations_are_spelled_out(ts: Seq<char>)
    ensures
        object_text(annotations(None)) == object_of(
            seq![
                ("dev.pichi.carapace.verity.algo"@, json_string("sha256"@)),
                ("dev.pichi.carapace.verity.data-block-size"@, json_string("4096"@)),
                ("dev.pichi.carapace.verity.hash-block-size"@, json_string("4096"@)),
            ],
        ),
        object_text(annotations(Some(ts))) == object_of(
            seq![
                ("dev.pichi.carapace.verity.algo"@, json_string("sha256"@)),
                ("dev.pichi.carapace.verity.data-block-size"@, json_string("4096"@)),
                ("dev.pichi.carapace.verity.hash-block-size"@, json_string("4096"@)),
                ("org.opencontainers.image.created"@, json_string(ts)),
            ],
        ),
{
    lemma_annotation_order();
    lemma_annotations_differ();
    let three = seq![
        ("dev.pichi.carapace.verity.algo"@, json_string("sha256"@)),
        ("dev.pichi.carapace.verity.data-block-size"@, json_string("4096"@)),
        ("dev.pichi.carapace.verity.hash-block-size"@, json_string("4096"@)),
    ];
    assert(three[0].0 == ANN_VERITY_ALGO@ && three[1].0 == ANN_VERITY_DATA_BLOCK@ && three[2].0
        == ANN_VERITY_HASH_BLOCK@);
    law_object_is_its_members(annotations(None), three);
    let four = seq![
        ("dev.pichi.carapace.verity.algo"@, json_string("sha256"@)),
        ("dev.pichi.carapace.verity.data-block-size"@, json_string("4096"@)),
        ("dev.pichi.carapace.verity.hash-block-size"@, json_string("4096"@)),
        ("org.opencontainers.image.created"@, json_string(ts)),
    ];
    assert(four[0].0 == ANN_VERITY_ALGO@ && four[1].0 == ANN_VERITY_DATA_BLOCK@ && four[2].0
        == ANN_VERITY_HASH_BLOCK@ && four[3].0 == ANN_CREATED@);
    law_object_is_its_members(annotations(Some(ts)), four);
}

proof fn lemma_annotations_differ()
    ensures
        "dev.pichi.carapace.verity.algo"@.len() == 30,
        "dev.pichi.carapace.verity.data-block-size"@.len() == 41
            && "dev.pichi.carapace.verity.data-block-size"@[26] == 'd',
        "dev.pichi.carapace.verity.hash-block-size"@.len() == 41
            && "dev.pichi.carapace.verity.hash-block-size"@[26] == 'h',
        "org.opencontainers.image.created"@.len() == 32,
{
    reveal_strlit("dev.pichi.carapace.verity.algo");
    reveal_strlit("dev.pichi.carapace.verity.data-block-size");
    reveal_strlit("dev.pichi.carapace.verity.hash-block-size");
    reveal_strlit("org.opencontainers.image.created");
}

/// The manifest says, and says nothing else: that it is an OCI image manifest of a carapace,
/// with an empty config, the layers in order, and the chain's parameters.
pub proof fn law_manifest_is_spelled_out(
    scutes: Seq<ScuteLayerModel>,
    created: Option<Seq<char>>,
)
    ensures
        manifest_text(scutes, created) == object_of(
            seq![
                ("annotations"@, object_text(annotations(created))),
                ("artifactType"@, json_string("application/vnd.pichi.artifact.v1+json"@)),
                (
                    "config"@,
                    object_of(
                        seq![
                            ("data"@, json_string("e30="@)),
                            (
                                "digest"@,
                                json_string("sha256:"@ + hex_text(sha256(seq![123u8, 125u8]))),
                            ),
                            ("mediaType"@, json_string("application/vnd.oci.empty.v1+json"@)),
                            ("size"@, decimal(2)),
                        ],
                    ),
                ),
                (
                    "layers"@,
                    array_text(Seq::new(scutes.len(), |i: int| descriptor_text(scutes[i]))),
                ),
                ("mediaType"@, json_string("application/vnd.oci.image.manifest.v1+json"@)),
                ("schemaVersion"@, decimal(2)),
            ],
        ),
{
    lemma_key_order();
    lemma_keys_differ();
    lemma_config_text();
    let texts = Seq::new(scutes.len(), |i: int| descriptor_text(scutes[i]));
    assert(descriptor_texts(scutes) =~= texts);
    let members = seq![
        ("annotations"@, object_text(annotations(created))),
        ("artifactType"@, json_string(MEDIA_TYPE_PICHI_ARTIFACT@)),
        ("config"@, config_of(blob_digest(empty_config()))),
        ("layers"@, array_text(texts)),
        ("mediaType"@, json_string(MEDIA_TYPE_OCI_MANIFEST@)),
        ("schemaVersion"@, decimal(2)),
    ];
    let fields = empty_fields().insert("schemaVersion"@, members[5].1).insert(
        "mediaType"@,
        members[4].1,
    ).insert("artifactType"@, members[1].1).insert("config"@, members[2].1).insert(
        "layers"@,
        members[3].1,
    ).insert("annotations"@, members[0].1);
    assert(members[0].0 == "annotations"@ && members[1].0 == "artifactType"@ && members[2].0
        == "config"@ && members[3].0 == "layers"@ && members[4].0 == "mediaType"@ && members[5].0
        == "schemaVersion"@);
    law_object_is_its_members(fields, members);
}

/// The entry of the index for a manifest.
proof fn lemma_entry_text(reference: Seq<char>, manifest: Seq<u8>)
    ensures
        entry_of(reference, blob_digest(manifest), manifest.len()) == object_of(
            seq![
                (
                    "annotations"@,
                    object_of(
                        seq![("org.opencontainers.image.ref.name"@, json_string(reference))],
                    ),
                ),
                ("artifactType"@, json_string("application/vnd.pichi.artifact.v1+json"@)),
                ("digest"@, json_string("sha256:"@ + hex_text(sha256(manifest)))),
                ("mediaType"@, json_string("application/vnd.oci.image.manifest.v1+json"@)),
                ("size"@, decimal(manifest.len())),
            ],
        ),
{
    lemma_key_order();
    lemma_keys_differ();
    let inner = seq![(ANN_REF_NAME@, json_string(reference))];
    let tag = empty_fields().insert(ANN_REF_NAME@, json_string(reference));
    assert(inner[0].0 == ANN_REF_NAME@);
    law_object_is_its_members(tag, inner);
    let members = seq![
        ("annotations"@, object_text(tag)),
        ("artifactType"@, json_string(MEDIA_TYPE_PICHI_ARTIFACT@)),
        ("digest"@, json_string(blob_digest(manifest))),
        ("mediaType"@, json_string(MEDIA_TYPE_OCI_MANIFEST@)),
        ("size"@, decimal(manifest.len())),
    ];
    let fields = empty_fields().insert("mediaType"@, members[3].1).insert(
        "artifactType"@,
        members[1].1,
    ).insert("digest"@, members[2].1).insert("size"@, members[4].1).insert(
        "annotations"@,
        members[0].1,
    );
    assert(members[0].0 == "annotations"@ && members[1].0 == "artifactType"@ && members[2].0
        == "digest"@ && members[3].0 == "mediaType"@ && members[4].0 == "size"@);
    law_object_is_its_members(fields, members);
}

/// The index has one entry: the manifest, by its digest and the length of its bytes, under
/// the reference.
pub proof fn law_index_is_spelled_out(reference: Seq<char>, manifest: Seq<u8>)
    ensures
        index_text(reference, manifest) == object_of(
            seq![
                (
                    "manifests"@,
                    array_text(
                        seq![
                            object_of(
                                seq![
                                    (
                                        "annotations"@,
                                        object_of(
                                            seq![
                                                (
                                                    "org.opencontainers.image.ref.name"@,
                                                    json_string(reference),
                                                ),
                                            ],
                                        ),
                                    ),
                                    (
                                        "artifactType"@,
                                        json_string("application/vnd.pichi.artifact.v1+json"@),
                                    ),
                                    (
                                        "digest"@,
                                        json_string("sha256:"@ + hex_text(sha256(manifest))),
                                    ),
                                    (
                                        "mediaType"@,
                                        json_string("application/vnd.oci.image.manifest.v1+json"@),
                                    ),
                                    ("size"@, decimal(manifest.len())),
                                ],
                            ),
                        ],
                    ),
                ),
                ("mediaType"@, json_string("application/vnd.oci.image.index.v1+json"@)),
                ("schemaVersion"@, decimal(2)),
            ],
        ),
{
    lemma_key_order();
    lemma_keys_differ();
    let entry = entry_of(reference, blob_digest(manifest), manifest.len());
    lemma_entry_text(reference, manifest);
    let outer = seq![
        ("manifests"@, array_text(seq![entry])),
        ("mediaType"@, json_string(MEDIA_TYPE_OCI_INDEX@)),
        ("schemaVersion"@, decimal(2)),
    ];
    let top = empty_fields().insert("schemaVersion"@, outer[2].1).insert(
        "mediaType"@,
        outer[1].1,
    ).insert("manifests"@, outer[0].1);
    assert(outer[0].0 == "manifests"@ && outer[1].0 == "mediaType"@ && outer[2].0
        == "schemaVersion"@);
    law_object_is_its_members(top, outer);
}

/// What is laid out: the manifest over the scutes in their order, with the time of creation
/// where one is given; the index over that manifest; and for each blob the name that its
/// own bytes give it.
pub proof fn law_layout_is_made_of_its_scutes(
    reference: &str,
    scutes: &[ScuteLayer],
    created: Option<&str>,
    r: Layout,
    models: Seq<ScuteLayerModel>,
)
    requires
        call_ensures(write_layout, (reference, scutes, created), r),
        models.len() == scutes@.len(),
        forall|i: int|
            0 <= i < models.len() ==> (#[trigger] models[i]).cow == scutes@[i].cow@
                && models[i].salt == scutes@[i].salt@,
    ensures
        created is None ==> r.manifest_bytes@ == encode_utf8(manifest_text(models, None)),
        created is Some ==> r.manifest_bytes@ == encode_utf8(
            manifest_text(models, Some(created->0@)),
        ),
        r.index@ == encode_utf8(index_text(reference@, r.manifest_bytes@)),
        r.marker@ == encode_utf8("{\"imageLayoutVersion\":\"1.0.0\"}"@),
        r.config_bytes@ == seq![123u8, 125u8],
        r.config.hex@ == hex_text(sha256(r.config_bytes@)),
        r.manifest.hex@ == hex_text(sha256(r.manifest_bytes@)),
        r.manifest.digest@ == "sha256:"@ + hex_text(sha256(r.manifest_bytes@)),
        r.cows@.len() == scutes@.len(),
        forall|i: int|
            0 <= i < scutes@.len() ==> (#[trigger] r.cows@[i]).hex@ == hex_text(
                sha256(scutes@[i].cow@),
            ) && r.cows@[i].digest@ == "sha256:"@ + hex_text(sha256(scutes@[i].cow@)),
{
    assert(layer_models(scutes@) =~= models);
    assert forall|i: int| 0 <= i < scutes@.len() implies (#[trigger] r.cows@[i]).hex@ == hex_text(
        sha256(scutes@[i].cow@),
    ) && r.cows@[i].digest@ == "sha256:"@ + hex_text(sha256(scutes@[i].cow@)) by {
        assert(r.cows@[i].names(models[i].cow));
    }
}

/// A blob is named by its digest: where it goes, where it is written before that, and how
/// it is referred to.
pub proof fn law_blob_is_named_by_its_digest(
    bytes: &[u8],
    name: BlobName,
    path: String,
    tmp: String,
)
    requires
        call_ensures(put_blob, (bytes,), name),
        call_ensures(BlobName::path, (&name,), path),
        call_ensures(BlobName::tmp_file, (&name,), tmp),
    ensures
        name.hex@ == hex_text(sha256(bytes@)),
        name.digest@ == "sha256:"@ + hex_text(sha256(bytes@)),
        path@ == "blobs/sha256/"@ + hex_text(sha256(bytes@)),
        tmp@ == "blobs/sha256/."@ + hex_text(sha256(bytes@)) + ".tmp"@,
        blob_path(bytes@) == path@,
        tmp_path(bytes@) == tmp@,
{
    reveal_strlit("blobs/sha256/");
    reveal_strlit("blobs/sha256/.");
    reveal_strlit(".");
    let hex = hex_text(sha256(bytes@));
    assert("blobs/sha256/."@ =~= "blobs/sha256/"@ + "."@);
    assert("blobs/sha256/"@ + ("."@ + hex + ".tmp"@) =~= "blobs/sha256/."@ + hex + ".tmp"@);
}

/// A blob that is there is left alone; one that is not is written under its other name and
/// then renamed.
pub proof fn law_blob_is_written_aside(present: bool, steps: Vec<FileStep>)
    requires
        call_ensures(put_steps, (present,), steps),
    ensures
        present ==> steps@.len() == 0,
        !present ==> steps@.len() == 2 && steps@[0] == FileStep::WriteAside && steps@[1]
            == FileStep::RenameInto,
{
}

/// The blobs that are put, in order: the config, each scute's cow, and the manifest; and then
/// the marker and the index, under their names.
pub proof fn law_every_file_is_written(
    layout: &Layout,
    scutes: &[ScuteLayer],
    k: usize,
    count: usize,
    blob: (&BlobName, &[u8]),
    tops: Vec<TopFile<'_>>,
)
    requires
        call_ensures(Layout::blob_count, (layout,), count),
        call_ensures(Layout::blob, (layout, scutes, k), blob),
        call_ensures(Layout::top_files, (layout,), tops),
        scutes@.len() == layout.cows@.len(),
    ensures
        count == scutes@.len() + 2,
        k == 0 ==> *blob.0 == layout.config && blob.1@ == layout.config_bytes@,
        0 < k <= scutes@.len() ==> *blob.0 == layout.cows@[k - 1] && blob.1@ == scutes@[k - 1].cow@,
        k == scutes@.len() + 1 ==> *blob.0 == layout.manifest && blob.1@ == layout.manifest_bytes@,
        tops@.len() == 2,
        tops@[0].path@ == "oci-layout"@ && tops@[0].bytes@ == layout.marker@,
        tops@[1].path@ == "index.json"@ && tops@[1].bytes@ == layout.index@,
{
}

/// Once a layout is written, the cow of each scute is there, and the config and the manifest;
/// and the index and the marker hold what they say.
pub proof fn law_every_blob_is_there(
    files: Files,
    reference: Seq<char>,
    scutes: Seq<ScuteLayerModel>,
    created: Option<Seq<char>>,
    i: int,
)
    requires
        0 <= i < scutes.len(),
    ensures
        ({
            let after = with_layout(files, reference, scutes, created);
            let manifest = encode_utf8(manifest_text(scutes, created));
            &&& after.dom().contains("blobs/sha256/"@ + hex_text(sha256(scutes[i].cow)))
            &&& after.dom().contains("blobs/sha256/"@ + hex_text(sha256(seq![123u8, 125u8])))
            &&& after.dom().contains("blobs/sha256/"@ + hex_text(sha256(manifest)))
            &&& after["index.json"@] == encode_utf8(index_text(reference, manifest))
            &&& after["oci-layout"@] == encode_utf8("{\"imageLayoutVersion\":\"1.0.0\"}"@)
        }),
{
    let blobs = blobs_of(scutes, created);
    let last = blobs.len() - 1;
    assert(blobs[0] == seq![123u8, 125u8]);
    assert(blobs[i + 1] == scutes[i].cow);
    assert(blobs[last] == encode_utf8(manifest_text(scutes, created)));
    law_second_layout_keeps_the_blobs(files, reference, scutes, created, blobs[0], 0);
    law_second_layout_keeps_the_blobs(files, reference, scutes, created, blobs[0], i + 1);
    law_second_layout_keeps_the_blobs(files, reference, scutes, created, blobs[0], last);
}

/// A raw image becomes one scute, whose cow is what `emit` makes of it in chunks of 8
/// sectors, and whose salt is 32 zeroes; a failure of `emit` is passed on.
pub proof fn law_import_makes_one_base_scute<E, F: Fn(&[u8], u32) -> Result<Vec<u8>, E>>(
    raw: &[u8],
    reference: &str,
    created: Option<&str>,
    emit: F,
    r: Result<(ScuteLayer, Layout), E>,
)
    requires
        call_ensures(import_raw::<E, F>, (raw, reference, created, emit), r),
    ensures
        r is Err ==> call_ensures(emit, (raw, 8u32), Err(r->Err_0)),
        r is Ok ==> {
            let scute = r->Ok_0.0;
            let layout = r->Ok_0.1;
            &&& call_ensures(emit, (raw, 8u32), Ok(scute.cow))
            &&& scute.salt@.len() == 32
            &&& forall|i: int| 0 <= i < 32 ==> #[trigger] scute.salt@[i] == 0
            &&& layout.cows@.len() == 1
            &&& layout.cows@[0].hex@ == hex_text(sha256(scute.cow@))
            &&& layout.index@ == encode_utf8(index_text(reference@, layout.manifest_bytes@))
            &&& created is None ==> layout.manifest_bytes@ == encode_utf8(
                manifest_text(seq![ScuteLayerModel { cow: scute.cow@, salt: scute.salt@ }], None),
            )
            &&& created is Some ==> layout.manifest_bytes@ == encode_utf8(
                manifest_text(
                    seq![ScuteLayerModel { cow: scute.cow@, salt: scute.salt@ }],
                    Some(created->0@),
                ),
            )
        },
{
    if r is Ok {
        let scute = r->Ok_0.0;
        let layout = r->Ok_0.1;
        assert(layout.cows@[0].names(seq![scute@][0].cow));
    }
}

} // verus!
