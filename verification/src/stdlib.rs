//! The built-in table of standard-library module names: imports of
//! these are never third-party dependencies.  The table is static data;
//! it is split into a few pieces only to keep each function small.
use vstd::prelude::*;

use crate::dependency::str_view;

verus! {

/// One piece of the module-name table.
pub open spec fn stdlib_chunk_a() -> Seq<Seq<char>> {
    seq!["abc"@, "aifc"@, "antigravity"@, "argparse"@, "array"@, "ast"@, "asyncio"@, "atexit"@, "audioop"@, "base64"@, "bdb"@, "binascii"@, "bisect"@, "builtins"@, "bz2"@, "calendar"@, "cgi"@, "cgitb"@, "chunk"@, "cmath"@, "cmd"@, "code"@, "codecs"@, "codeop"@, "collections"@, "colorsys"@, "compileall"@, "concurrent"@, "configparser"@, "contextlib"@, "contextvars"@, "copy"@, "copyreg"@, "cProfile"@, "crypt"@, "csv"@, "ctypes"@, "curses"@, "dataclasses"@, "datetime"@, "dbm"@, "decimal"@, "difflib"@, "dis"@, "doctest"@]
}

/// Appends that piece.
fn push_chunk_a(v: &mut Vec<String>)
    ensures
        final(v)@.map_values(str_view()) == old(v)@.map_values(str_view()) + stdlib_chunk_a(),
{
    v.push(String::from_str("abc"));
    v.push(String::from_str("aifc"));
    v.push(String::from_str("antigravity"));
    v.push(String::from_str("argparse"));
    v.push(String::from_str("array"));
    v.push(String::from_str("ast"));
    v.push(String::from_str("asyncio"));
    v.push(String::from_str("atexit"));
    v.push(String::from_str("audioop"));
    v.push(String::from_str("base64"));
    v.push(String::from_str("bdb"));
    v.push(String::from_str("binascii"));
    v.push(String::from_str("bisect"));
    v.push(String::from_str("builtins"));
    v.push(String::from_str("bz2"));
    v.push(String::from_str("calendar"));
    v.push(String::from_str("cgi"));
    v.push(String::from_str("cgitb"));
    v.push(String::from_str("chunk"));
    v.push(String::from_str("cmath"));
    v.push(String::from_str("cmd"));
    v.push(String::from_str("code"));
    v.push(String::from_str("codecs"));
    v.push(String::from_str("codeop"));
    v.push(String::from_str("collections"));
    v.push(String::from_str("colorsys"));
    v.push(String::from_str("compileall"));
    v.push(String::from_str("concurrent"));
    v.push(String::from_str("configparser"));
    v.push(String::from_str("contextlib"));
    v.push(String::from_str("contextvars"));
    v.push(String::from_str("copy"));
    v.push(String::from_str("copyreg"));
    v.push(String::from_str("cProfile"));
    v.push(String::from_str("crypt"));
    v.push(String::from_str("csv"));
    v.push(String::from_str("ctypes"));
    v.push(String::from_str("curses"));
    v.push(String::from_str("dataclasses"));
    v.push(String::from_str("datetime"));
    v.push(String::from_str("dbm"));
    v.push(String::from_str("decimal"));
    v.push(String::from_str("difflib"));
    v.push(String::from_str("dis"));
    v.push(String::from_str("doctest"));
    proof {
        assert(final(v)@.map_values(str_view()) =~= old(v)@.map_values(str_view())
            + stdlib_chunk_a());
    }
}

/// One piece of the module-name table.
pub open spec fn stdlib_chunk_b() -> Seq<Seq<char>> {
    seq!["email"@, "encodings"@, "ensurepip"@, "enum"@, "errno"@, "faulthandler"@, "fcntl"@, "filecmp"@, "fileinput"@, "fnmatch"@, "fractions"@, "ftplib"@, "functools"@, "gc"@, "getopt"@, "getpass"@, "gettext"@, "glob"@, "graphlib"@, "grp"@, "gzip"@, "hashlib"@, "heapq"@, "hmac"@, "html"@, "http"@, "idlelib"@, "imaplib"@, "imghdr"@, "imp"@, "importlib"@, "inspect"@, "io"@, "ipaddress"@, "itertools"@, "json"@, "keyword"@, "lib2to3"@, "linecache"@, "locale"@, "logging"@, "lzma"@, "mailbox"@, "mailcap"@, "marshal"@]
}

/// Appends that piece.
fn push_chunk_b(v: &mut Vec<String>)
    ensures
        final(v)@.map_values(str_view()) == old(v)@.map_values(str_view()) + stdlib_chunk_b(),
{
    v.push(String::from_str("email"));
    v.push(String::from_str("encodings"));
    v.push(String::from_str("ensurepip"));
    v.push(String::from_str("enum"));
    v.push(String::from_str("errno"));
    v.push(String::from_str("faulthandler"));
    v.push(String::from_str("fcntl"));
    v.push(String::from_str("filecmp"));
    v.push(String::from_str("fileinput"));
    v.push(String::from_str("fnmatch"));
    v.push(String::from_str("fractions"));
    v.push(String::from_str("ftplib"));
    v.push(String::from_str("functools"));
    v.push(String::from_str("gc"));
    v.push(String::from_str("getopt"));
    v.push(String::from_str("getpass"));
    v.push(String::from_str("gettext"));
    v.push(String::from_str("glob"));
    v.push(String::from_str("graphlib"));
    v.push(String::from_str("grp"));
    v.push(String::from_str("gzip"));
    v.push(String::from_str("hashlib"));
    v.push(String::from_str("heapq"));
    v.push(String::from_str("hmac"));
    v.push(String::from_str("html"));
    v.push(String::from_str("http"));
    v.push(String::from_str("idlelib"));
    v.push(String::from_str("imaplib"));
    v.push(String::from_str("imghdr"));
    v.push(String::from_str("imp"));
    v.push(String::from_str("importlib"));
    v.push(String::from_str("inspect"));
    v.push(String::from_str("io"));
    v.push(String::from_str("ipaddress"));
    v.push(String::from_str("itertools"));
    v.push(String::from_str("json"));
    v.push(String::from_str("keyword"));
    v.push(String::from_str("lib2to3"));
    v.push(String::from_str("linecache"));
    v.push(String::from_str("locale"));
    v.push(String::from_str("logging"));
    v.push(String::from_str("lzma"));
    v.push(String::from_str("mailbox"));
    v.push(String::from_str("mailcap"));
    v.push(String::from_str("marshal"));
    proof {
        assert(final(v)@.map_values(str_view()) =~= old(v)@.map_values(str_view())
            + stdlib_chunk_b());
    }
}

/// One piece of the module-name table.
pub open spec fn stdlib_chunk_c() -> Seq<Seq<char>> {
    seq!["math"@, "mimetypes"@, "mmap"@, "modulefinder"@, "msilib"@, "msvcrt"@, "multiprocessing"@, "netrc"@, "nis"@, "nntplib"@, "ntpath"@, "nturl2path"@, "numbers"@, "opcode"@, "operator"@, "optparse"@, "os"@, "ossaudiodev"@, "pathlib"@, "pdb"@, "pickle"@, "pickletools"@, "pipes"@, "pkgutil"@, "platform"@, "plistlib"@, "poplib"@, "posix"@, "posixpath"@, "pprint"@, "profile"@, "pstats"@, "pty"@, "pwd"@, "py_compile"@, "pyclbr"@, "pydoc"@, "queue"@, "quopri"@, "random"@, "re"@, "readline"@, "reprlib"@, "resource"@, "rlcompleter"@]
}

/// Appends that piece.
fn push_chunk_c(v: &mut Vec<String>)
    ensures
        final(v)@.map_values(str_view()) == old(v)@.map_values(str_view()) + stdlib_chunk_c(),
{
    v.push(String::from_str("math"));
    v.push(String::from_str("mimetypes"));
    v.push(String::from_str("mmap"));
    v.push(String::from_str("modulefinder"));
    v.push(String::from_str("msilib"));
    v.push(String::from_str("msvcrt"));
    v.push(String::from_str("multiprocessing"));
    v.push(String::from_str("netrc"));
    v.push(String::from_str("nis"));
    v.push(String::from_str("nntplib"));
    v.push(String::from_str("ntpath"));
    v.push(String::from_str("nturl2path"));
    v.push(String::from_str("numbers"));
    v.push(String::from_str("opcode"));
    v.push(String::from_str("operator"));
    v.push(String::from_str("optparse"));
    v.push(String::from_str("os"));
    v.push(String::from_str("ossaudiodev"));
    v.push(String::from_str("pathlib"));
    v.push(String::from_str("pdb"));
    v.push(String::from_str("pickle"));
    v.push(String::from_str("pickletools"));
    v.push(String::from_str("pipes"));
    v.push(String::from_str("pkgutil"));
    v.push(String::from_str("platform"));
    v.push(String::from_str("plistlib"));
    v.push(String::from_str("poplib"));
    v.push(String::from_str("posix"));
    v.push(String::from_str("posixpath"));
    v.push(String::from_str("pprint"));
    v.push(String::from_str("profile"));
    v.push(String::from_str("pstats"));
    v.push(String::from_str("pty"));
    v.push(String::from_str("pwd"));
    v.push(String::from_str("py_compile"));
    v.push(String::from_str("pyclbr"));
    v.push(String::from_str("pydoc"));
    v.push(String::from_str("queue"));
    v.push(String::from_str("quopri"));
    v.push(String::from_str("random"));
    v.push(String::from_str("re"));
    v.push(String::from_str("readline"));
    v.push(String::from_str("reprlib"));
    v.push(String::from_str("resource"));
    v.push(String::from_str("rlcompleter"));
    proof {
        assert(final(v)@.map_values(str_view()) =~= old(v)@.map_values(str_view())
            + stdlib_chunk_c());
    }
}

/// One piece of the module-name table.
pub open spec fn stdlib_chunk_d() -> Seq<Seq<char>> {
    seq!["runpy"@, "sched"@, "secrets"@, "select"@, "selectors"@, "shelve"@, "shlex"@, "shutil"@, "signal"@, "site"@, "smtplib"@, "sndhdr"@, "socket"@, "socketserver"@, "spwd"@, "sqlite3"@, "sre_compile"@, "sre_constants"@, "sre_parse"@, "ssl"@, "stat"@, "statistics"@, "string"@, "stringprep"@, "struct"@, "subprocess"@, "sunau"@, "symtable"@, "sys"@, "sysconfig"@, "syslog"@, "tabnanny"@, "tarfile"@, "telnetlib"@, "tempfile"@, "termios"@, "test"@, "textwrap"@, "threading"@, "time"@, "timeit"@, "tkinter"@, "token"@, "tokenize"@, "tomllib"@]
}

/// Appends that piece.
fn push_chunk_d(v: &mut Vec<String>)
    ensures
        final(v)@.map_values(str_view()) == old(v)@.map_values(str_view()) + stdlib_chunk_d(),
{
    v.push(String::from_str("runpy"));
    v.push(String::from_str("sched"));
    v.push(String::from_str("secrets"));
    v.push(String::from_str("select"));
    v.push(String::from_str("selectors"));
    v.push(String::from_str("shelve"));
    v.push(String::from_str("shlex"));
    v.push(String::from_str("shutil"));
    v.push(String::from_str("signal"));
    v.push(String::from_str("site"));
    v.push(String::from_str("smtplib"));
    v.push(String::from_str("sndhdr"));
    v.push(String::from_str("socket"));
    v.push(String::from_str("socketserver"));
    v.push(String::from_str("spwd"));
    v.push(String::from_str("sqlite3"));
    v.push(String::from_str("sre_compile"));
    v.push(String::from_str("sre_constants"));
    v.push(String::from_str("sre_parse"));
    v.push(String::from_str("ssl"));
    v.push(String::from_str("stat"));
    v.push(String::from_str("statistics"));
    v.push(String::from_str("string"));
    v.push(String::from_str("stringprep"));
    v.push(String::from_str("struct"));
    v.push(String::from_str("subprocess"));
    v.push(String::from_str("sunau"));
    v.push(String::from_str("symtable"));
    v.push(String::from_str("sys"));
    v.push(String::from_str("sysconfig"));
    v.push(String::from_str("syslog"));
    v.push(String::from_str("tabnanny"));
    v.push(String::from_str("tarfile"));
    v.push(String::from_str("telnetlib"));
    v.push(String::from_str("tempfile"));
    v.push(String::from_str("termios"));
    v.push(String::from_str("test"));
    v.push(String::from_str("textwrap"));
    v.push(String::from_str("threading"));
    v.push(String::from_str("time"));
    v.push(String::from_str("timeit"));
    v.push(String::from_str("tkinter"));
    v.push(String::from_str("token"));
    v.push(String::from_str("tokenize"));
    v.push(String::from_str("tomllib"));
    proof {
        assert(final(v)@.map_values(str_view()) =~= old(v)@.map_values(str_view())
            + stdlib_chunk_d());
    }
}

/// One piece of the module-name table.
pub open spec fn stdlib_chunk_e() -> Seq<Seq<char>> {
    seq!["trace"@, "traceback"@, "tracemalloc"@, "tty"@, "turtle"@, "turtledemo"@, "types"@, "typing"@, "unicodedata"@, "unittest"@, "urllib"@, "uu"@, "uuid"@, "venv"@, "warnings"@, "wave"@, "weakref"@, "webbrowser"@, "winreg"@, "winsound"@, "wsgiref"@, "xdrlib"@, "xml"@, "xmlrpc"@, "zipapp"@, "zipfile"@, "zipimport"@, "zlib"@, "zoneinfo"@, "_thread"@, "__future__"@]
}

/// Appends that piece.
fn push_chunk_e(v: &mut Vec<String>)
    ensures
        final(v)@.map_values(str_view()) == old(v)@.map_values(str_view()) + stdlib_chunk_e(),
{
    v.push(String::from_str("trace"));
    v.push(String::from_str("traceback"));
    v.push(String::from_str("tracemalloc"));
    v.push(String::from_str("tty"));
    v.push(String::from_str("turtle"));
    v.push(String::from_str("turtledemo"));
    v.push(String::from_str("types"));
    v.push(String::from_str("typing"));
    v.push(String::from_str("unicodedata"));
    v.push(String::from_str("unittest"));
    v.push(String::from_str("urllib"));
    v.push(String::from_str("uu"));
    v.push(String::from_str("uuid"));
    v.push(String::from_str("venv"));
    v.push(String::from_str("warnings"));
    v.push(String::from_str("wave"));
    v.push(String::from_str("weakref"));
    v.push(String::from_str("webbrowser"));
    v.push(String::from_str("winreg"));
    v.push(String::from_str("winsound"));
    v.push(String::from_str("wsgiref"));
    v.push(String::from_str("xdrlib"));
    v.push(String::from_str("xml"));
    v.push(String::from_str("xmlrpc"));
    v.push(String::from_str("zipapp"));
    v.push(String::from_str("zipfile"));
    v.push(String::from_str("zipimport"));
    v.push(String::from_str("zlib"));
    v.push(String::from_str("zoneinfo"));
    v.push(String::from_str("_thread"));
    v.push(String::from_str("__future__"));
    proof {
        assert(final(v)@.map_values(str_view()) =~= old(v)@.map_values(str_view())
            + stdlib_chunk_e());
    }
}

/// The full table of standard-library module names.
pub open spec fn stdlib_names() -> Seq<Seq<char>> {
    stdlib_chunk_a() + stdlib_chunk_b() + stdlib_chunk_c() + stdlib_chunk_d() + stdlib_chunk_e()
}

/// Builds the table of standard-library module names.
pub fn python_stdlib_modules() -> (r: Vec<String>)
    ensures
        r@.map_values(str_view()) == stdlib_names(),
{
    let mut v: Vec<String> = Vec::new();
    push_chunk_a(&mut v);
    push_chunk_b(&mut v);
    push_chunk_c(&mut v);
    push_chunk_d(&mut v);
    push_chunk_e(&mut v);
    proof {
        assert(v@.map_values(str_view()) =~= stdlib_names());
    }
    v
}

} // verus!
