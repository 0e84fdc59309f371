//! Pipeline driver decisions: file-extension extraction and format
//! selection for a conversion run.
//!
//! The driver reads from one storage location, decodes, optionally
//! queries, encodes, and publishes with one atomic put; the I/O steps
//! live at the boundary, and the choices they depend on are decided
//! here.

use vstd::prelude::*;

use crate::bytesutil::bytes_eq;
use crate::config::csv_name;
use crate::config::parquet_name;
use crate::error::ConvertError;
use crate::error::ErrorKind;

verus! {

/// The name of the automatic format choice.
pub open spec fn auto_name() -> Seq<u8> {
    seq![97u8, 117u8, 116u8, 111u8]
}

/// A format argument: automatic detection or an explicit format.
#[derive(Clone, Copy, Debug, PartialEq, Eq, Structural)]
pub enum FormatChoice {
    Auto,
    Csv,
    Parquet,
}

/// A resolved format.
#[derive(Clone, Copy, Debug, PartialEq, Eq, Structural)]
pub enum SelectedFormat {
    Csv,
    Parquet,
}

/// The position after the last dot of a path, or the length when the
/// path has no dot.
pub open spec fn after_last_dot(p: Seq<u8>) -> int
    decreases p.len(),
{
    if p.len() == 0 {
        0
    } else if p.last() == 46 {
        p.len() as int
    } else {
        after_last_dot(p.drop_last())
    }
}

/// The file extension of a path: the text after the last dot; none
/// when there is no dot or nothing follows it.
pub open spec fn extension_model(p: Seq<u8>) -> Option<Seq<u8>> {
    let cut = after_last_dot(p);
    if cut == 0 || cut >= p.len() {
        None
    } else {
        Some(p.subrange(cut, p.len() as int))
    }
}

/// Extract the file extension of a path.
pub fn extension_of(path: &Vec<u8>) -> (r: Option<Vec<u8>>)
    ensures
        r is Some <==> extension_model(path@) is Some,
        r matches Some(e) ==> e@ == extension_model(path@)->0,
{
    let n: usize = path.len();
    proof {
        assert(path@.take(n as int) =~= path@);
    }
    let mut cut: usize = n;
    let mut seen_dot: bool = false;
    while cut > 0 && !seen_dot
        invariant
            cut <= n,
            n == path@.len(),
            !seen_dot ==> after_last_dot(path@) == after_last_dot(path@.take(cut as int)),
            seen_dot ==> cut < n + 1 && cut >= 1 && path@[cut as int - 1] == 46
                && after_last_dot(path@) == cut,
        decreases cut + (if seen_dot {
            0int
        } else {
            1int
        }),
    {
        if path[cut - 1] == 46 {
            seen_dot = true;
            proof {
                assert(path@.take(cut as int).last() == path@[cut as int - 1]);
            }
        } else {
            proof {
                assert(path@.take(cut as int).last() == path@[cut as int - 1]);
                assert(path@.take(cut as int).drop_last() =~= path@.take(cut as int - 1));
            }
            cut = cut - 1;
        }
    }
    if !seen_dot {
        proof {
            assert(path@.take(0) =~= Seq::<u8>::empty());
            assert(after_last_dot(path@) == 0);
        }
        return None;
    }
    if cut >= n {
        return None;
    }
    let mut out: Vec<u8> = Vec::new();
    for i in cut..n
        invariant
            cut <= n,
            n == path@.len(),
            out@ == path@.subrange(cut as int, i as int),
    {
        out.push(path[i]);
        proof {
            assert(out@ =~= path@.subrange(cut as int, i as int + 1));
        }
    }
    Some(out)
}

/// Resolve a format-argument name: `auto`, `csv` or `parquet`; any
/// other name resolves to nothing.
pub fn parse_format_choice(name: &Vec<u8>) -> (r: Option<FormatChoice>)
    ensures
        name@ == auto_name() ==> r == Some(FormatChoice::Auto),
        name@ == csv_name() ==> r == Some(FormatChoice::Csv),
        name@ == parquet_name() ==> r == Some(FormatChoice::Parquet),
        r is None <==> name@ != auto_name() && name@ != csv_name() && name@ != parquet_name(),
{
    let auto_lit: Vec<u8> = vec![97, 117, 116, 111];
    let csv_lit: Vec<u8> = vec![99, 115, 118];
    let parquet_lit: Vec<u8> = vec![112, 97, 114, 113, 117, 101, 116];
    proof {
        assert(auto_lit@ =~= auto_name());
        assert(csv_lit@ =~= csv_name());
        assert(parquet_lit@ =~= parquet_name());
    }
    if bytes_eq(name, &auto_lit) {
        Some(FormatChoice::Auto)
    } else if bytes_eq(name, &csv_lit) {
        Some(FormatChoice::Csv)
    } else if bytes_eq(name, &parquet_lit) {
        Some(FormatChoice::Parquet)
    } else {
        None
    }
}

/// Select the codec for one side of a conversion: the explicit choice
/// wins; automatic detection goes by the file extension and fails with
/// an argument error exactly when the extension names neither built-in
/// format.
pub fn choose_format(choice: FormatChoice, extension: &Option<Vec<u8>>) -> (r: Result<
    SelectedFormat,
    ConvertError,
>)
    ensures
        match r {
            Ok(f) => match choice {
                FormatChoice::Csv => f == SelectedFormat::Csv,
                FormatChoice::Parquet => f == SelectedFormat::Parquet,
                FormatChoice::Auto => (extension matches Some(e) && (e@ == csv_name() ==> f
                    == SelectedFormat::Csv) && (e@ == parquet_name() ==> f
                    == SelectedFormat::Parquet)),
            },
            Err(e) => {
                &&& e.kind == ErrorKind::Argument
                &&& choice == FormatChoice::Auto
                &&& match extension {
                    Some(ext) => ext@ != csv_name() && ext@ != parquet_name(),
                    None => true,
                }
            },
        },
{
    match choice {
        FormatChoice::Csv => Ok(SelectedFormat::Csv),
        FormatChoice::Parquet => Ok(SelectedFormat::Parquet),
        FormatChoice::Auto => {
            let csv_lit: Vec<u8> = vec![99, 115, 118];
            let parquet_lit: Vec<u8> = vec![112, 97, 114, 113, 117, 101, 116];
            proof {
                assert(csv_lit@ =~= csv_name());
                assert(parquet_lit@ =~= parquet_name());
            }
            match extension {
                Some(ext) => {
                    if bytes_eq(ext, &csv_lit) {
                        Ok(SelectedFormat::Csv)
                    } else if bytes_eq(ext, &parquet_lit) {
                        Ok(SelectedFormat::Parquet)
                    } else {
                        Err(
                            ConvertError::text(
                                ErrorKind::Argument,
                                "could not detect the format from the file extension",
                            ),
                        )
                    }
                },
                None => Err(
                    ConvertError::text(
                        ErrorKind::Argument,
                        "could not detect the format from the file extension",
                    ),
                ),
            }
        },
    }
}

} // verus!
