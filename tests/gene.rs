use utils::gene::{
    dna_search_url, ensembl_lookup_url, gene_from_lookup, region_field, request_limit_reached,
    strand_field, text_field, unsigned_field, FieldValue, Gene, LookupRecord,
};
use utils::genome_browser::{ucsc_genome, ucsc_sequence_url};
use utils::time::remaining_wait;

fn text(s: &str) -> FieldValue {
    FieldValue::Text(String::from(s))
}

fn record() -> LookupRecord {
    LookupRecord {
        assembly_name: text("GRCh38"),
        biotype: text("protein_coding"),
        canonical_transcript: text("ENST00000286680.5"),
        db_type: text("core"),
        description: text("SET domain containing 9"),
        display_name: text("SETD9"),
        end: FieldValue::Number(Some(56911980), Some(56911980)),
        id: text("ENSG00000155542"),
        logic_name: text("ensembl_havana_gene_homo_sapiens"),
        object_type: text("Gene"),
        seq_region_name: FieldValue::Number(Some(5), Some(5)),
        source: text("ensembl_havana"),
        species: text("homo_sapiens"),
        start: FieldValue::Number(Some(56909957), Some(56909957)),
        strand: FieldValue::Number(None, Some(-1)),
        version: FieldValue::Other,
    }
}

#[test]
fn gene_from_lookup_reads_each_field() {
    let gene: Gene = gene_from_lookup(&record(), "acgt");
    assert_eq!(gene.get_assembly_name(), "GRCh38");
    assert_eq!(gene.get_biotype(), "protein_coding");
    assert_eq!(gene.get_canonical_transcript(), "ENST00000286680.5");
    assert_eq!(gene.get_db_type(), "core");
    assert_eq!(gene.get_description(), "SET domain containing 9");
    assert_eq!(gene.get_display_name(), "SETD9");
    assert_eq!(gene.get_dna(), "acgt");
    assert_eq!(gene.get_end(), "56911980");
    assert_eq!(gene.get_id(), "ENSG00000155542");
    assert_eq!(gene.get_logic_name(), "ensembl_havana_gene_homo_sapiens");
    assert_eq!(gene.get_object_type(), "Gene");
    assert_eq!(gene.get_seq_region_name(), "5");
    assert_eq!(gene.get_source(), "ensembl_havana");
    assert_eq!(gene.get_species(), "homo_sapiens");
    assert_eq!(gene.get_start(), "56909957");
    assert_eq!(gene.get_strand(), "-1");
    assert_eq!(gene.get_version(), "");
}

#[test]
fn gene_new_keeps_fields() {
    let gene = Gene::new(
        "a", "b", "c", "d", "e", "f", "g", "h", "i", "j", "k", "l", "m", "n", "o", "p", "q",
    );
    let got = [
        gene.get_assembly_name(),
        gene.get_biotype(),
        gene.get_canonical_transcript(),
        gene.get_db_type(),
        gene.get_description(),
        gene.get_display_name(),
        gene.get_dna(),
        gene.get_end(),
        gene.get_id(),
        gene.get_logic_name(),
        gene.get_object_type(),
        gene.get_seq_region_name(),
        gene.get_source(),
        gene.get_species(),
        gene.get_start(),
        gene.get_strand(),
        gene.get_version(),
    ];
    assert_eq!(
        got,
        ["a", "b", "c", "d", "e", "f", "g", "h", "i", "j", "k", "l", "m", "n", "o", "p", "q"]
    );
}

#[test]
fn field_readings() {
    assert_eq!(text_field(&text("x")), "x");
    assert_eq!(text_field(&FieldValue::Number(Some(3), Some(3))), "");
    assert_eq!(unsigned_field(&FieldValue::Number(Some(0), Some(0))), "0");
    assert_eq!(unsigned_field(&FieldValue::Number(Some(u64::MAX), None)), "18446744073709551615");
    assert_eq!(unsigned_field(&text("12")), "");
    assert_eq!(region_field(&text("X")), "X");
    assert_eq!(region_field(&FieldValue::Number(Some(17), Some(17))), "17");
    assert_eq!(region_field(&FieldValue::Number(None, None)), "");
    assert_eq!(region_field(&FieldValue::Other), "");
    assert_eq!(strand_field(&FieldValue::Number(Some(1), Some(1))), "1");
    assert_eq!(strand_field(&FieldValue::Number(None, Some(i64::MIN))), "-9223372036854775808");
    assert_eq!(strand_field(&text("+")), "+");
    assert_eq!(strand_field(&FieldValue::Other), "");
}

#[test]
fn lookup_url() {
    assert_eq!(
        ensembl_lookup_url("ENSG00000155542"),
        "https://rest.ensembl.org/lookup/id/ENSG00000155542"
    );
}

#[test]
fn request_limit() {
    assert!(!request_limit_reached(None));
    assert!(!request_limit_reached(Some(0)));
    assert!(!request_limit_reached(Some(4999)));
    assert!(request_limit_reached(Some(5000)));
    assert!(request_limit_reached(Some(u32::MAX)));
}

#[test]
fn dna_url_names_genome_for_grch38_only() {
    assert_eq!(
        dna_search_url("GRCh38", "1", "2", "X"),
        "https://api.genome.ucsc.edu/getData/sequence?genome=hg38;chrom=chrX;start=1;end=2;"
    );
    assert_eq!(
        dna_search_url("GRCh37", "10", "20", "5"),
        "https://api.genome.ucsc.edu/getData/sequence?chrom=chr5;start=10;end=20;"
    );
}

#[test]
fn genome_names() {
    assert_eq!(ucsc_genome("GRCh38"), "hg38");
    assert_eq!(ucsc_genome("GRCh37"), "hg19");
    assert_eq!(ucsc_genome("galGal6"), "galGal6");
}

#[test]
fn sequence_url() {
    assert_eq!(
        ucsc_sequence_url("GRCh37", "1", "2", "X"),
        "https://api.genome.ucsc.edu/getData/sequence?genome=hg19;chrom=chrX;start=1;end=2;"
    );
}

#[test]
fn waits() {
    assert_eq!(remaining_wait(1000, 1000, 67), 67);
    assert_eq!(remaining_wait(1000, 1050, 67), 17);
    assert_eq!(remaining_wait(1000, 1067, 67), 0);
    assert_eq!(remaining_wait(1000, 5000, 67), 0);
}
