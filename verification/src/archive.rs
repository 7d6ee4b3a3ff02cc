//! The archive assembler. It lays one export job out as a sequence of
//! archive members — four directory entries, one manifest, and a label
//! file and image file per aggregated image — and writes them through the
//! trusted zip layer. Member base names concatenate the image id's 32
//! hexadecimal digits with the original filename's stem, so two uploads
//! sharing a filename never collide.

use vstd::prelude::*;
use crate::encoder::encode_label_file;
use crate::encoder::label_file_spec;
use crate::labels::enc_labels;
use crate::models::AggView;
use crate::models::AggregatedImage;
use crate::models::ExportError;
use crate::models::agg_views;
use crate::models::ImageRecord;
use crate::numtext::dec_digits;
use crate::numtext::hex_fixed;
use crate::numtext::push_dec_u64;
use crate::numtext::push_hex_fixed;
use crate::split::Split;
use crate::split::split_for;
use crate::split::split_of;
use crate::strutil::ext_of;
use crate::strutil::push_bytes;
use crate::strutil::split_filename;
use crate::strutil::stem_of;
use crate::strutil::str_bytes;
use crate::strutil::utf8_bytes;
use vstd::utf8::valid_utf8;
use crate::zipio::ArchiveWriter;
use crate::zipio::ZipEntry;
use crate::zipio::entries_writable;
use crate::zipio::zip_add_directory;
use crate::zipio::zip_entries;
use crate::zipio::zip_encoding;
use crate::zipio::zip_finish;
use crate::zipio::zip_start_file;
use crate::zipio::zip_write_all;
use crate::zipio::zip_writer_new;

verus! {

/// The path segment of a partition.
pub open spec fn split_seg(s: Split) -> Seq<u8> {
    if s is Train {
        utf8_bytes("train"@)
    } else {
        utf8_bytes("val"@)
    }
}

/// The partition's path segment as a string.
fn split_seg_str(s: Split) -> (r: &'static str)
    ensures
        utf8_bytes(r@) == split_seg(s),
{
    match s {
        Split::Train => "train",
        Split::Val => "val",
    }
}

/// The collision-free base name of one image's files: the 32 hexadecimal
/// digits of its id, an underscore, and the stem of its original filename.
pub open spec fn base_name(img: ImageRecord) -> Seq<u8> {
    hex_fixed(img.id as nat, 32) + seq![95u8] + stem_of(utf8_bytes(img.original_filename@))
}

/// The original extension, dot included, or nothing when the filename has
/// none.
pub open spec fn ext_part(f: Seq<u8>) -> Seq<u8> {
    if ext_of(f).len() == 0 {
        Seq::empty()
    } else {
        seq![46u8] + ext_of(f)
    }
}

/// The archive path of one image's label file.
pub open spec fn label_path(name: Seq<u8>, img: ImageRecord, s: Split) -> Seq<u8> {
    name + utf8_bytes("/labels/"@) + split_seg(s) + seq![47u8] + base_name(img) + utf8_bytes(
        ".txt"@,
    )
}

/// The archive path of one image's binary file.
pub open spec fn image_path(name: Seq<u8>, img: ImageRecord, s: Split) -> Seq<u8> {
    name + utf8_bytes("/images/"@) + split_seg(s) + seq![47u8] + base_name(img) + ext_part(
        utf8_bytes(img.original_filename@),
    )
}

/// The four empty directory entries of every export archive.
pub open spec fn dir_entries(name: Seq<u8>) -> Seq<ZipEntry> {
    seq![
        (ZipEntry {
            path: name + utf8_bytes("/images/train"@) + seq![47u8],
            is_dir: true,
            data: Seq::empty(),
        }),
        (ZipEntry {
            path: name + utf8_bytes("/images/val"@) + seq![47u8],
            is_dir: true,
            data: Seq::empty(),
        }),
        (ZipEntry {
            path: name + utf8_bytes("/labels/train"@) + seq![47u8],
            is_dir: true,
            data: Seq::empty(),
        }),
        (ZipEntry {
            path: name + utf8_bytes("/labels/val"@) + seq![47u8],
            is_dir: true,
            data: Seq::empty(),
        }),
    ]
}

/// The class-name lines of the manifest, one quoted label per line, in
/// index order.
pub open spec fn yaml_names(index: Seq<Seq<u8>>) -> Seq<u8>
    decreases index.len(),
{
    if index.len() == 0 {
        Seq::empty()
    } else {
        yaml_names(index.drop_last()) + utf8_bytes("  - '"@) + index.last() + utf8_bytes("'\n"@)
    }
}

/// The manifest: relative dataset layout, class count, and the sorted
/// class names.
pub open spec fn yaml_content(index: Seq<Seq<u8>>) -> Seq<u8> {
    utf8_bytes("path: ..\ntrain: images/train\nval: images/val\nnc: "@) + dec_digits(
        index.len() as nat,
    ) + utf8_bytes("\nnames:\n"@) + yaml_names(index)
}

/// The manifest entry at the archive root.
pub open spec fn yaml_entry(name: Seq<u8>, index: Seq<Seq<u8>>) -> ZipEntry {
    ZipEntry { path: name + utf8_bytes("/data.yaml"@), is_dir: false, data: yaml_content(index) }
}

/// The label-file and image-file entries of the image at position `i` of
/// `n`.
pub open spec fn entry_pair(
    name: Seq<u8>,
    img: AggView,
    index: Seq<Seq<u8>>,
    i: int,
    n: int,
) -> Seq<ZipEntry> {
    seq![
        (ZipEntry {
            path: label_path(name, img.image, split_of(i, n)),
            is_dir: false,
            data: label_file_spec(
                img.annotations,
                img.image.width as int,
                img.image.height as int,
                index,
            ),
        }),
        (ZipEntry {
            path: image_path(name, img.image, split_of(i, n)),
            is_dir: false,
            data: img.data,
        }),
    ]
}

/// The per-image entries of the first `images.len()` images, each placed
/// by its ordinal position among `n`.
pub open spec fn image_entries(
    name: Seq<u8>,
    images: Seq<AggView>,
    index: Seq<Seq<u8>>,
    n: int,
) -> Seq<ZipEntry>
    decreases images.len(),
{
    if images.len() == 0 {
        Seq::empty()
    } else {
        image_entries(name, images.drop_last(), index, n) + entry_pair(
            name,
            images.last(),
            index,
            images.len() - 1,
            n,
        )
    }
}

/// Every member of one export archive, in write order: directories, the
/// manifest, then one label file and one image file per aggregated image.
pub open spec fn archive_entries_spec(
    name: Seq<u8>,
    images: Seq<AggView>,
    index: Seq<Seq<u8>>,
) -> Seq<ZipEntry> {
    dir_entries(name) + seq![yaml_entry(name, index)] + image_entries(
        name,
        images,
        index,
        images.len() as int,
    )
}

/// Builds one directory path: the dataset root, a fixed segment, and a
/// trailing slash.
fn dir_path(base: &Vec<u8>, mid: &str) -> (r: Vec<u8>)
    ensures
        r@ == base@ + utf8_bytes(mid@) + seq![47u8],
        r@.len() > 0,
        r@.last() == 47,
{
    let mut v: Vec<u8> = Vec::new();
    push_bytes(&mut v, base.as_slice());
    push_bytes(&mut v, mid.as_bytes());
    v.push(47);
    proof {
        assert(v@ =~= base@ + utf8_bytes(mid@) + seq![47u8]);
    }
    v
}

/// Renders the manifest of a label index.
fn build_yaml(index: &Vec<String>) -> (r: Vec<u8>)
    ensures
        r@ == yaml_content(enc_labels(index@)),
{
    let ghost ix = enc_labels(index@);
    let mut out: Vec<u8> = Vec::new();
    push_bytes(&mut out, "path: ..\ntrain: images/train\nval: images/val\nnc: ".as_bytes());
    push_dec_u64(&mut out, index.len() as u64);
    push_bytes(&mut out, "\nnames:\n".as_bytes());
    let ghost header = out@;
    let mut i: usize = 0;
    while i < index.len()
        invariant
            i <= index@.len(),
            ix == enc_labels(index@),
            out@ == header + yaml_names(ix.take(i as int)),
            header == utf8_bytes("path: ..\ntrain: images/train\nval: images/val\nnc: "@)
                + dec_digits(index@.len() as nat) + utf8_bytes("\nnames:\n"@),
        decreases index@.len() - i,
    {
        push_bytes(&mut out, "  - '".as_bytes());
        push_bytes(&mut out, index[i].as_str().as_bytes());
        push_bytes(&mut out, "'\n".as_bytes());
        proof {
            assert(ix.take(i + 1).drop_last() =~= ix.take(i as int));
            assert(ix.take(i + 1).last() == ix[i as int]);
            assert(out@ =~= header + yaml_names(ix.take(i + 1)));
        }
        i = i + 1;
    }
    proof {
        assert(ix.take(i as int) =~= ix);
    }
    out
}

/// Each image contributes exactly two archive members.
pub proof fn lemma_image_entries_len(
    name: Seq<u8>,
    images: Seq<AggView>,
    index: Seq<Seq<u8>>,
    n: int,
)
    ensures
        image_entries(name, images, index, n).len() == 2 * images.len(),
    decreases images.len(),
{
    if images.len() > 0 {
        lemma_image_entries_len(name, images.drop_last(), index, n);
    }
}

/// The first `i` images contribute exactly the first `2*i` per-image
/// members.
proof fn lemma_image_entries_prefix(
    name: Seq<u8>,
    images: Seq<AggView>,
    index: Seq<Seq<u8>>,
    n: int,
    i: int,
)
    requires
        0 <= i <= images.len(),
    ensures
        image_entries(name, images.take(i), index, n) == image_entries(
            name,
            images,
            index,
            n,
        ).take(2 * i),
    decreases images.len() - i,
{
    let full = image_entries(name, images, index, n);
    if i == images.len() {
        lemma_image_entries_len(name, images, index, n);
        assert(images.take(i) =~= images);
        assert(full.take(2 * i) =~= full);
    } else {
        lemma_image_entries_prefix(name, images, index, n, i + 1);
        lemma_image_entries_len(name, images, index, n);
        lemma_image_entries_len(name, images.take(i), index, n);
        lemma_image_entries_len(name, images.take(i + 1), index, n);
        assert(images.take(i + 1).drop_last() =~= images.take(i));
        assert(images.take(i + 1).last() == images[i]);
        let shorter = image_entries(name, images.take(i), index, n);
        let pair = entry_pair(name, images[i], index, i, n);
        assert(image_entries(name, images.take(i + 1), index, n) == shorter + pair);
        assert(shorter =~= full.take(2 * i)) by {
            assert forall|k: int| 0 <= k < 2 * i implies shorter[k] == full.take(2 * i)[k] by {
                assert(shorter[k] == (shorter + pair)[k]);
                assert((shorter + pair)[k] == full.take(2 * i + 2)[k]);
            }
        }
    }
}

/// The two members of the image at position `i` sit at positions `2*i`
/// and `2*i + 1` of the per-image members.
pub proof fn lemma_image_entries_pair_at(
    name: Seq<u8>,
    images: Seq<AggView>,
    index: Seq<Seq<u8>>,
    n: int,
    i: int,
)
    requires
        0 <= i < images.len(),
    ensures
        image_entries(name, images, index, n)[2 * i] == entry_pair(name, images[i], index, i, n)[0],
        image_entries(name, images, index, n)[2 * i + 1] == entry_pair(
            name,
            images[i],
            index,
            i,
            n,
        )[1],
{
    let full = image_entries(name, images, index, n);
    lemma_image_entries_len(name, images, index, n);
    lemma_image_entries_prefix(name, images, index, n, i);
    lemma_image_entries_prefix(name, images, index, n, i + 1);
    lemma_image_entries_len(name, images.take(i), index, n);
    assert(images.take(i + 1).drop_last() =~= images.take(i));
    assert(images.take(i + 1).last() == images[i]);
    let shorter = image_entries(name, images.take(i), index, n);
    let pair = entry_pair(name, images[i], index, i, n);
    assert(image_entries(name, images.take(i + 1), index, n) == shorter + pair);
    assert(full[2 * i] == full.take(2 * i + 2)[2 * i]);
    assert(full[2 * i + 1] == full.take(2 * i + 2)[2 * i + 1]);
    assert((shorter + pair)[2 * i] == pair[0]);
    assert((shorter + pair)[2 * i + 1] == pair[1]);
}

/// The first `5 + m` archive members are the directories, the manifest,
/// and the first `m` per-image members.
proof fn lemma_archive_take(name: Seq<u8>, images: Seq<AggView>, index: Seq<Seq<u8>>, m: int)
    requires
        0 <= m <= 2 * images.len(),
    ensures
        archive_entries_spec(name, images, index).take(5 + m) =~= dir_entries(name) + seq![
            yaml_entry(name, index),
        ] + image_entries(name, images, index, images.len() as int).take(m),
{
    lemma_image_entries_len(name, images, index, images.len() as int);
}

/// Under `entries_writable`, the member at position `k` is acceptable to
/// the writer once exactly the members before it are written: its path is
/// valid, short, and fresh.
proof fn lemma_fresh_entry_accepted(full: Seq<ZipEntry>, k: int, p: Seq<u8>)
    requires
        entries_writable(full),
        0 <= k < full.len(),
        full[k].path == p,
    ensures
        valid_utf8(p),
        p.len() < 65536,
        forall|j: int| 0 <= j < full.take(k).len() ==> (#[trigger] full.take(k)[j]).path != p,
{
    assert forall|j: int|
        0 <= j < full.take(k).len() implies (#[trigger] full.take(k)[j]).path != p by {
        assert(full.take(k)[j] == full[j]);
    }
}

/// Assembles the whole export archive: directory entries, the manifest,
/// and a label/image file pair per aggregated image, all stored
/// uncompressed. On success the returned bytes are the archive of exactly
/// `archive_entries_spec`; any write failure aborts the export with
/// `ArchiveWriteFailed` and returns no partial archive. A member sequence
/// the writer accepts outright — distinct, valid, short paths and data
/// below the stored-size threshold — is guaranteed to be written.
pub fn generate_yolo_zip(
    aggregated: &Vec<AggregatedImage>,
    index: &Vec<String>,
    name: &String,
) -> (r: Result<Vec<u8>, ExportError>)
    ensures
        match r {
            Ok(bytes) => bytes@ == zip_encoding(
                archive_entries_spec(utf8_bytes(name@), agg_views(aggregated@), enc_labels(index@)),
            ),
            Err(e) => e == ExportError::ArchiveWriteFailed,
        },
        entries_writable(
            archive_entries_spec(utf8_bytes(name@), agg_views(aggregated@), enc_labels(index@)),
        ) ==> r is Ok,
{
    let ghost nm = utf8_bytes(name@);
    let ghost ix = enc_labels(index@);
    let ghost av = agg_views(aggregated@);
    let ghost full = archive_entries_spec(nm, av, ix);
    proof {
        lemma_image_entries_len(nm, av, ix, av.len() as int);
        assert(full.len() == 5 + 2 * av.len());
        assert(full.take(0) =~= Seq::<ZipEntry>::empty());
    }
    let name_b = str_bytes(name.as_str());
    let mut w = zip_writer_new();

    let p = dir_path(&name_b, "/images/train");
    let ghost pre = zip_entries(w);
    assert(full[0] == dir_entries(nm)[0] && pre == full.take(0));
    if zip_add_directory(&mut w, p.as_slice()).is_err() {
        proof {
            if entries_writable(full) {
                lemma_fresh_entry_accepted(full, 0, p@);
                assert(false);
            }
        }
        return Err(ExportError::ArchiveWriteFailed);
    }
    proof {
        assert(zip_entries(w) =~= full.take(1));
    }
    let p = dir_path(&name_b, "/images/val");
    let ghost pre = zip_entries(w);
    assert(full[1] == dir_entries(nm)[1] && pre == full.take(1));
    if zip_add_directory(&mut w, p.as_slice()).is_err() {
        proof {
            if entries_writable(full) {
                lemma_fresh_entry_accepted(full, 1, p@);
                assert(false);
            }
        }
        return Err(ExportError::ArchiveWriteFailed);
    }
    proof {
        assert(zip_entries(w) =~= full.take(2));
    }
    let p = dir_path(&name_b, "/labels/train");
    let ghost pre = zip_entries(w);
    assert(full[2] == dir_entries(nm)[2] && pre == full.take(2));
    if zip_add_directory(&mut w, p.as_slice()).is_err() {
        proof {
            if entries_writable(full) {
                lemma_fresh_entry_accepted(full, 2, p@);
                assert(false);
            }
        }
        return Err(ExportError::ArchiveWriteFailed);
    }
    proof {
        assert(zip_entries(w) =~= full.take(3));
    }
    let p = dir_path(&name_b, "/labels/val");
    let ghost pre = zip_entries(w);
    assert(full[3] == dir_entries(nm)[3] && pre == full.take(3));
    if zip_add_directory(&mut w, p.as_slice()).is_err() {
        proof {
            if entries_writable(full) {
                lemma_fresh_entry_accepted(full, 3, p@);
                assert(false);
            }
        }
        return Err(ExportError::ArchiveWriteFailed);
    }
    proof {
        assert(zip_entries(w) =~= full.take(4));
    }

    let mut py: Vec<u8> = Vec::new();
    push_bytes(&mut py, name_b.as_slice());
    push_bytes(&mut py, "/data.yaml".as_bytes());
    let ghost pre = zip_entries(w);
    assert(full[4] == yaml_entry(nm, ix) && pre == full.take(4));
    if zip_start_file(&mut w, py.as_slice()).is_err() {
        proof {
            if entries_writable(full) {
                lemma_fresh_entry_accepted(full, 4, py@);
                assert(false);
            }
        }
        return Err(ExportError::ArchiveWriteFailed);
    }
    let yaml = build_yaml(index);
    let ghost pre = zip_entries(w);
    assert(pre == full.take(4).push(
        (ZipEntry { path: py@, is_dir: false, data: Seq::empty() }),
    ));
    if zip_write_all(&mut w, yaml.as_slice()).is_err() {
        proof {
            if entries_writable(full) {
                assert(pre.last().data.len() + yaml@.len() <= 0xffff_ffff) by {
                    assert(yaml@ == full[4].data);
                }
                assert(false);
            }
        }
        return Err(ExportError::ArchiveWriteFailed);
    }
    proof {
        assert(zip_entries(w) =~= full.take(5)) by {
            lemma_archive_take(nm, av, ix, 0);
            assert(image_entries(nm, av, ix, av.len() as int).take(0)
                =~= Seq::<ZipEntry>::empty());
        }
    }

    let n = aggregated.len();
    let mut i: usize = 0;
    while i < n
        invariant
            i <= n,
            n == aggregated@.len(),
            nm == utf8_bytes(name@),
            ix == enc_labels(index@),
            name_b@ == nm,
            av == agg_views(aggregated@),
            av.len() == n,
            full == archive_entries_spec(nm, av, ix),
            full.len() == 5 + 2 * (n as int),
            zip_entries(w) == full.take(5 + 2 * (i as int)),
        decreases n - i,
    {
        let img = &aggregated[i];
        let ghost iv = av[i as int];
        let ghost sp = split_of(i as int, n as int);
        let ghost pair = entry_pair(nm, iv, ix, i as int, n as int);
        assert(iv == aggregated@[i as int]@);
        proof {
            lemma_image_entries_pair_at(nm, av, ix, n as int, i as int);
            assert(full[5 + 2 * (i as int)] == pair[0]);
            assert(full[5 + 2 * (i as int) + 1] == pair[1]);
        }
        let fb = str_bytes(img.image.original_filename.as_str());
        let (stem, ext) = split_filename(fb.as_slice());
        let mut base: Vec<u8> = Vec::new();
        push_hex_fixed(&mut base, img.image.id, 32);
        base.push(95);
        push_bytes(&mut base, stem.as_slice());
        proof {
            assert(base@ =~= base_name(img.image));
        }
        let seg = split_seg_str(split_for(i, n));

        let mut lp: Vec<u8> = Vec::new();
        push_bytes(&mut lp, name_b.as_slice());
        push_bytes(&mut lp, "/labels/".as_bytes());
        push_bytes(&mut lp, seg.as_bytes());
        lp.push(47);
        push_bytes(&mut lp, base.as_slice());
        push_bytes(&mut lp, ".txt".as_bytes());
        proof {
            assert(lp@ =~= label_path(nm, img.image, sp));
        }
        let ghost pre = zip_entries(w);
        if zip_start_file(&mut w, lp.as_slice()).is_err() {
            proof {
                if entries_writable(full) {
                    lemma_fresh_entry_accepted(full, 5 + 2 * (i as int), lp@);
                    assert(false);
                }
            }
            return Err(ExportError::ArchiveWriteFailed);
        }
        let content = encode_label_file(&img.annotations, img.image.width, img.image.height, index);
        let ghost pre = zip_entries(w);
        assert(pre == full.take(5 + 2 * (i as int)).push(
            (ZipEntry { path: lp@, is_dir: false, data: Seq::empty() }),
        ));
        if zip_write_all(&mut w, content.as_slice()).is_err() {
            proof {
                if entries_writable(full) {
                    assert(pre.last().data.len() + content@.len() <= 0xffff_ffff) by {
                        assert(content@ == full[5 + 2 * (i as int)].data);
                    }
                    assert(false);
                }
            }
            return Err(ExportError::ArchiveWriteFailed);
        }
        proof {
            assert(zip_entries(w) =~= full.take(5 + 2 * (i as int) + 1));
        }

        let mut ip: Vec<u8> = Vec::new();
        push_bytes(&mut ip, name_b.as_slice());
        push_bytes(&mut ip, "/images/".as_bytes());
        push_bytes(&mut ip, seg.as_bytes());
        ip.push(47);
        push_bytes(&mut ip, base.as_slice());
        match &ext {
            Some(e) => {
                if e.len() > 0 {
                    ip.push(46);
                    push_bytes(&mut ip, e.as_slice());
                }
            },
            None => {},
        }
        proof {
            assert(ip@ =~= image_path(nm, img.image, sp));
        }
        let ghost pre = zip_entries(w);
        if zip_start_file(&mut w, ip.as_slice()).is_err() {
            proof {
                if entries_writable(full) {
                    lemma_fresh_entry_accepted(full, 5 + 2 * (i as int) + 1, ip@);
                    assert(false);
                }
            }
            return Err(ExportError::ArchiveWriteFailed);
        }
        let ghost pre = zip_entries(w);
        assert(pre == full.take(5 + 2 * (i as int) + 1).push(
            (ZipEntry { path: ip@, is_dir: false, data: Seq::empty() }),
        ));
        if zip_write_all(&mut w, img.data.as_slice()).is_err() {
            proof {
                if entries_writable(full) {
                    assert(pre.last().data.len() + img.data@.len() <= 0xffff_ffff) by {
                        assert(img.data@ == full[5 + 2 * (i as int) + 1].data);
                    }
                    assert(false);
                }
            }
            return Err(ExportError::ArchiveWriteFailed);
        }
        proof {
            assert(zip_entries(w) =~= full.take(5 + 2 * (i + 1)));
        }
        i = i + 1;
    }
    proof {
        assert(full.take(5 + 2 * (i as int)) =~= full);
    }
    match zip_finish(w) {
        Ok(bytes) => Ok(bytes),
        Err(_) => Err(ExportError::ArchiveWriteFailed),
    }
}

} // verus!
