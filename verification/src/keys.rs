//! Object keys and URLs the service derives from identifiers and
//! filenames: the hyphenated hexadecimal form of an id, upload keys, and
//! dataset archive keys and download URLs.

use vstd::prelude::*;
use vstd::string::StringExecFns;

verus! {

/// The lowercase hexadecimal character of one digit.
pub open spec fn hex_digit_char(d: nat) -> char {
    if d == 0 {
        '0'
    } else if d == 1 {
        '1'
    } else if d == 2 {
        '2'
    } else if d == 3 {
        '3'
    } else if d == 4 {
        '4'
    } else if d == 5 {
        '5'
    } else if d == 6 {
        '6'
    } else if d == 7 {
        '7'
    } else if d == 8 {
        '8'
    } else if d == 9 {
        '9'
    } else if d == 10 {
        'a'
    } else if d == 11 {
        'b'
    } else if d == 12 {
        'c'
    } else if d == 13 {
        'd'
    } else if d == 14 {
        'e'
    } else {
        'f'
    }
}

/// The last `width` lowercase hexadecimal characters of `n`, zero-padded.
pub open spec fn hex_chars(n: nat, width: nat) -> Seq<char>
    decreases width,
{
    if width == 0 {
        Seq::empty()
    } else {
        hex_chars(n / 16, (width - 1) as nat).push(hex_digit_char(n % 16))
    }
}

/// The hyphenated textual form of a 128-bit identifier: five groups of
/// 8, 4, 4, 4 and 12 hexadecimal characters.
pub open spec fn uuid_chars(n: u128) -> Seq<char> {
    hex_chars(((n >> 96) & 0xffff_ffff) as nat, 8) + seq!['-'] + hex_chars(
        ((n >> 80) & 0xffff) as nat,
        4,
    ) + seq!['-'] + hex_chars(((n >> 64) & 0xffff) as nat, 4) + seq!['-'] + hex_chars(
        ((n >> 48) & 0xffff) as nat,
        4,
    ) + seq!['-'] + hex_chars((n & 0xffff_ffff_ffff) as nat, 12)
}

/// Appends the last `width` hexadecimal characters of `n`.
fn push_hex_chars(s: &mut String, n: u128, width: u64)
    ensures
        final(s)@ == old(s)@ + hex_chars(n as nat, width as nat),
    decreases width,
{
    if width > 0 {
        push_hex_chars(s, n / 16, width - 1);
        let d: u8 = (n % 16) as u8;
        let digit: &str = if d == 0 {
            "0"
        } else if d == 1 {
            "1"
        } else if d == 2 {
            "2"
        } else if d == 3 {
            "3"
        } else if d == 4 {
            "4"
        } else if d == 5 {
            "5"
        } else if d == 6 {
            "6"
        } else if d == 7 {
            "7"
        } else if d == 8 {
            "8"
        } else if d == 9 {
            "9"
        } else if d == 10 {
            "a"
        } else if d == 11 {
            "b"
        } else if d == 12 {
            "c"
        } else if d == 13 {
            "d"
        } else if d == 14 {
            "e"
        } else {
            "f"
        };
        proof {
            reveal_strlit("0");
            reveal_strlit("1");
            reveal_strlit("2");
            reveal_strlit("3");
            reveal_strlit("4");
            reveal_strlit("5");
            reveal_strlit("6");
            reveal_strlit("7");
            reveal_strlit("8");
            reveal_strlit("9");
            reveal_strlit("a");
            reveal_strlit("b");
            reveal_strlit("c");
            reveal_strlit("d");
            reveal_strlit("e");
            reveal_strlit("f");
            assert(digit@ =~= seq![hex_digit_char((n % 16) as nat)]);
        }
        s.append(digit);
        assert(final(s)@ == old(s)@ + hex_chars(n as nat, width as nat));
    }
}

/// The hyphenated textual form of an identifier, as used inside object
/// keys and URLs.
pub fn uuid_hyphenated(n: u128) -> (r: String)
    ensures
        r@ == uuid_chars(n),
{
    let mut s = String::new();
    push_hex_chars(&mut s, (n >> 96) & 0xffff_ffff, 8);
    let dash = "-";
    proof {
        reveal_strlit("-");
        assert(dash@ =~= seq!['-']);
    }
    s.append(dash);
    push_hex_chars(&mut s, (n >> 80) & 0xffff, 4);
    s.append(dash);
    push_hex_chars(&mut s, (n >> 64) & 0xffff, 4);
    s.append(dash);
    push_hex_chars(&mut s, (n >> 48) & 0xffff, 4);
    s.append(dash);
    push_hex_chars(&mut s, n & 0xffff_ffff_ffff, 12);
    proof {
        assert(s@ =~= uuid_chars(n));
    }
    s
}

/// The object key a fresh upload is stored under: the upload id and the
/// client's filename.
pub fn upload_object_key(id: u128, filename: &String) -> (r: String)
    ensures
        r@ == "images/"@ + uuid_chars(id) + "_"@ + filename@,
{
    let mut s = String::new();
    s.append("images/");
    let u = uuid_hyphenated(id);
    s.append(u.as_str());
    s.append("_");
    s.append(filename.as_str());
    proof {
        assert(s@ =~= "images/"@ + uuid_chars(id) + "_"@ + filename@);
    }
    s
}

/// The object key a dataset archive is stored under.
pub fn dataset_archive_key(dataset_id: u128, name: &String) -> (r: String)
    ensures
        r@ == "datasets/"@ + uuid_chars(dataset_id) + "/"@ + name@ + ".zip"@,
{
    let mut s = String::new();
    s.append("datasets/");
    let u = uuid_hyphenated(dataset_id);
    s.append(u.as_str());
    s.append("/");
    s.append(name.as_str());
    s.append(".zip");
    proof {
        assert(s@ =~= "datasets/"@ + uuid_chars(dataset_id) + "/"@ + name@ + ".zip"@);
    }
    s
}

/// The public download URL of an object in the service's storage region.
pub fn dataset_download_url(bucket: &String, key: &String) -> (r: String)
    ensures
        r@ == "https://s3.ap-northeast-1.amazonaws.com/"@ + bucket@ + "/"@ + key@,
{
    let mut s = String::new();
    s.append("https://s3.ap-northeast-1.amazonaws.com/");
    s.append(bucket.as_str());
    s.append("/");
    s.append(key.as_str());
    proof {
        assert(s@ =~= "https://s3.ap-northeast-1.amazonaws.com/"@ + bucket@ + "/"@ + key@);
    }
    s
}

} // verus!
