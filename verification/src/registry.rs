//! The format registry: a mapping from file extension to the factory
//! that builds a fresh codec instance.
//!
//! Later registrations override earlier ones atomically, so a plugin
//! claiming a built-in extension wins its binding.

use vstd::prelude::*;

use crate::bytesutil::bytes_eq;
use crate::bytesutil::clone_bytes;
use crate::config::CsvConfig;
use crate::config::ParquetConfig;
use crate::config::csv_name;
use crate::config::parquet_name;

verus! {

/// What builds a codec instance for an extension: one of the built-in
/// codecs with its settings, or a plugin identified by its slot in the
/// plugin table.
#[derive(Debug)]
pub enum CodecFactory {
    BuiltinCsv(CsvConfig),
    BuiltinParquet(ParquetConfig),
    Plugin(usize),
}

/// Equality of factories up to configuration content.
pub open spec fn factory_eq(a: CodecFactory, b: CodecFactory) -> bool {
    match (a, b) {
        (CodecFactory::BuiltinCsv(x), CodecFactory::BuiltinCsv(y)) => {
            &&& x.batch_size == y.batch_size
            &&& x.default_has_header == y.default_has_header
            &&& x.schema_sample_size == y.schema_sample_size
            &&& x.max_sample_bytes == y.max_sample_bytes
            &&& x.delimiter == y.delimiter
            &&& x.quote == y.quote
        },
        (CodecFactory::BuiltinParquet(x), CodecFactory::BuiltinParquet(y)) => {
            &&& x.batch_size == y.batch_size
            &&& x.use_statistics == y.use_statistics
            &&& x.row_group_size == y.row_group_size
            &&& x.compression@ == y.compression@
            &&& x.page_size == y.page_size
            &&& x.dictionary_page_size == y.dictionary_page_size
        },
        (CodecFactory::Plugin(x), CodecFactory::Plugin(y)) => x == y,
        _ => false,
    }
}

/// The binding an extension resolves to: the latest registration wins.
pub open spec fn registry_lookup(entries: Seq<(Vec<u8>, CodecFactory)>, ext: Seq<u8>) -> Option<
    CodecFactory,
>
    decreases entries.len(),
{
    if entries.len() == 0 {
        None
    } else if entries.last().0@ == ext {
        Some(entries.last().1)
    } else {
        registry_lookup(entries.drop_last(), ext)
    }
}

/// A mapping from extension (lower case, no leading dot) to codec
/// factory.
#[derive(Debug)]
pub struct FormatRegistry {
    pub entries: Vec<(Vec<u8>, CodecFactory)>,
}

fn clone_factory(f: &CodecFactory) -> (r: CodecFactory)
    ensures
        factory_eq(r, *f),
{
    match f {
        CodecFactory::BuiltinCsv(c) => CodecFactory::BuiltinCsv(
            CsvConfig {
                batch_size: c.batch_size,
                default_has_header: c.default_has_header,
                schema_sample_size: c.schema_sample_size,
                max_sample_bytes: c.max_sample_bytes,
                delimiter: c.delimiter,
                quote: c.quote,
            },
        ),
        CodecFactory::BuiltinParquet(c) => CodecFactory::BuiltinParquet(
            ParquetConfig {
                batch_size: c.batch_size,
                use_statistics: c.use_statistics,
                row_group_size: c.row_group_size,
                compression: clone_bytes(&c.compression),
                page_size: c.page_size,
                dictionary_page_size: c.dictionary_page_size,
            },
        ),
        CodecFactory::Plugin(i) => CodecFactory::Plugin(*i),
    }
}

impl FormatRegistry {
    /// A registry with the built-in bindings for the delimited text and
    /// columnar binary formats.
    pub fn new(csv: CsvConfig, parquet: ParquetConfig) -> (r: FormatRegistry)
        ensures
            r.entries@.len() == 2,
            r.entries@[0].0@ == csv_name(),
            r.entries@[0].1 == CodecFactory::BuiltinCsv(csv),
            r.entries@[1].0@ == parquet_name(),
            r.entries@[1].1 == CodecFactory::BuiltinParquet(parquet),
    {
        let csv_ext: Vec<u8> = vec![99, 115, 118];
        let parquet_ext: Vec<u8> = vec![112, 97, 114, 113, 117, 101, 116];
        proof {
            assert(csv_ext@ =~= csv_name());
            assert(parquet_ext@ =~= parquet_name());
        }
        let mut entries: Vec<(Vec<u8>, CodecFactory)> = Vec::new();
        entries.push((csv_ext, CodecFactory::BuiltinCsv(csv)));
        entries.push((parquet_ext, CodecFactory::BuiltinParquet(parquet)));
        FormatRegistry { entries }
    }

    /// Bind an extension to a factory, atomically replacing any prior
    /// binding: the new binding wins every later lookup of the
    /// extension, and no other extension's binding changes.
    pub fn register_format(&mut self, extension: Vec<u8>, factory: CodecFactory)
        ensures
            final (self).entries@ == old(self).entries@.push((extension, factory)),
            registry_lookup(final (self).entries@, extension@) == Some(factory),
            forall|other: Seq<u8>|
                other != extension@ ==> #[trigger] registry_lookup(final (self).entries@, other)
                    == registry_lookup(old(self).entries@, other),
    {
        let ghost ext_view = extension@;
        self.entries.push((extension, factory));
        proof {
            assert(final (self).entries@.last().0@ == ext_view);
            assert forall|other: Seq<u8>| other != ext_view implies #[trigger] registry_lookup(
                final (self).entries@,
                other,
            ) == registry_lookup(old(self).entries@, other) by {
                assert(final (self).entries@.drop_last() =~= old(self).entries@);
            }
        }
    }

    /// The factory the extension currently resolves to, if any.
    pub fn get_format(&self, extension: &Vec<u8>) -> (r: Option<CodecFactory>)
        ensures
            r is Some <==> registry_lookup(self.entries@, extension@) is Some,
            r matches Some(f) ==> factory_eq(f, registry_lookup(self.entries@, extension@)->0),
    {
        let n: usize = self.entries.len();
        proof {
            assert(self.entries@.take(n as int) =~= self.entries@);
        }
        let mut i: usize = n;
        while i > 0
            invariant
                i <= n,
                n == self.entries@.len(),
                registry_lookup(self.entries@, extension@) == registry_lookup(
                    self.entries@.take(i as int),
                    extension@,
                ),
            decreases i,
        {
            i = i - 1;
            let entry = &self.entries[i];
            proof {
                assert(self.entries@.take(i as int + 1).last() == self.entries@[i as int]);
                assert(self.entries@.take(i as int + 1).drop_last() =~= self.entries@.take(
                    i as int,
                ));
            }
            if bytes_eq(&entry.0, extension) {
                return Some(clone_factory(&entry.1));
            }
        }
        proof {
            assert(self.entries@.take(0) =~= Seq::<(Vec<u8>, CodecFactory)>::empty());
        }
        None
    }

    /// The factory for a file extension; same resolution as
    /// `get_format`, provided under the pipeline's name for it.
    pub fn get_format_for_extension(&self, extension: &Vec<u8>) -> (r: Option<CodecFactory>)
        ensures
            r is Some <==> registry_lookup(self.entries@, extension@) is Some,
            r matches Some(f) ==> factory_eq(f, registry_lookup(self.entries@, extension@)->0),
    {
        self.get_format(extension)
    }
}

/// Registry precedence: after binding an extension to a factory, the
/// extension resolves to that factory, and it keeps doing so until a
/// later registration rebinds it; other extensions are untouched.
pub proof fn lemma_registry_precedence(
    entries: Seq<(Vec<u8>, CodecFactory)>,
    ext: Vec<u8>,
    factory: CodecFactory,
    later: Seq<(Vec<u8>, CodecFactory)>,
)
    requires
        forall|i: int| 0 <= i < later.len() ==> (#[trigger] later[i]).0@ != ext@,
    ensures
        registry_lookup(entries.push((ext, factory)), ext@) == Some(factory),
        registry_lookup(entries.push((ext, factory)) + later, ext@) == Some(factory),
    decreases later.len(),
{
    if later.len() == 0 {
        assert(entries.push((ext, factory)) + later =~= entries.push((ext, factory)));
    } else {
        lemma_registry_precedence(entries, ext, factory, later.drop_last());
        assert((entries.push((ext, factory)) + later).drop_last() =~= entries.push((ext, factory))
            + later.drop_last());
        assert((entries.push((ext, factory)) + later).last() == later.last());
    }
}

} // verus!
