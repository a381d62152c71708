//! The built-in table of irregular packages: ones whose import-time
//! module name differs from the name they are published under.  Earlier
//! entries of a remap table win on lookup, so caller-supplied overrides
//! are placed ahead of these.
use vstd::prelude::*;

verus! {

/// The view of a pair of strings, as a function value.
pub open spec fn pair_view() -> spec_fn((String, String)) -> (Seq<char>, Seq<char>) {
    |p: (String, String)| (p.0@, p.1@)
}

/// The built-in import-name to distribution-name table.
pub open spec fn builtin_irregulars() -> Seq<(Seq<char>, Seq<char>)> {
    seq![
        ("AFQ"@, "pyAFQ"@),
        ("Crypto"@, "pycryptodome"@),
        ("OpenSSL"@, "pyOpenSSL"@),
        ("PIL"@, "Pillow"@),
        ("attr"@, "attrs"@),
        ("bs4"@, "beautifulsoup4"@),
        ("cv2"@, "opencv-python"@),
        ("dateutil"@, "python-dateutil"@),
        ("docx"@, "python-docx"@),
        ("dotenv"@, "python-dotenv"@),
        ("fitz"@, "PyMuPDF"@),
        ("gi"@, "PyGObject"@),
        ("git"@, "GitPython"@),
        ("jose"@, "python-jose"@),
        ("magic"@, "python-magic"@),
        ("mpl_toolkits"@, "matplotlib"@),
        ("pptx"@, "python-pptx"@),
        ("rest_framework"@, "djangorestframework"@),
        ("serial"@, "pyserial"@),
        ("skimage"@, "scikit-image"@),
        ("sklearn"@, "scikit-learn"@),
        ("socketio"@, "python-socketio"@),
        ("usb"@, "pyusb"@),
        ("wx"@, "wxPython"@),
        ("yaml"@, "PyYAML"@),
        ("zmq"@, "pyzmq"@)
    ]
}

/// Builds the built-in irregulars table.
pub fn python_irregulars() -> (r: Vec<(String, String)>)
    ensures
        r@.map_values(pair_view()) == builtin_irregulars(),
{
    let mut v: Vec<(String, String)> = Vec::new();
    v.push((String::from_str("AFQ"), String::from_str("pyAFQ")));
    v.push((String::from_str("Crypto"), String::from_str("pycryptodome")));
    v.push((String::from_str("OpenSSL"), String::from_str("pyOpenSSL")));
    v.push((String::from_str("PIL"), String::from_str("Pillow")));
    v.push((String::from_str("attr"), String::from_str("attrs")));
    v.push((String::from_str("bs4"), String::from_str("beautifulsoup4")));
    v.push((String::from_str("cv2"), String::from_str("opencv-python")));
    v.push((String::from_str("dateutil"), String::from_str("python-dateutil")));
    v.push((String::from_str("docx"), String::from_str("python-docx")));
    v.push((String::from_str("dotenv"), String::from_str("python-dotenv")));
    v.push((String::from_str("fitz"), String::from_str("PyMuPDF")));
    v.push((String::from_str("gi"), String::from_str("PyGObject")));
    v.push((String::from_str("git"), String::from_str("GitPython")));
    v.push((String::from_str("jose"), String::from_str("python-jose")));
    v.push((String::from_str("magic"), String::from_str("python-magic")));
    v.push((String::from_str("mpl_toolkits"), String::from_str("matplotlib")));
    v.push((String::from_str("pptx"), String::from_str("python-pptx")));
    v.push((String::from_str("rest_framework"), String::from_str("djangorestframework")));
    v.push((String::from_str("serial"), String::from_str("pyserial")));
    v.push((String::from_str("skimage"), String::from_str("scikit-image")));
    v.push((String::from_str("sklearn"), String::from_str("scikit-learn")));
    v.push((String::from_str("socketio"), String::from_str("python-socketio")));
    v.push((String::from_str("usb"), String::from_str("pyusb")));
    v.push((String::from_str("wx"), String::from_str("wxPython")));
    v.push((String::from_str("yaml"), String::from_str("PyYAML")));
    v.push((String::from_str("zmq"), String::from_str("pyzmq")));
    proof {
        assert(v@.map_values(pair_view()) =~= builtin_irregulars());
    }
    v
}

} // verus!
