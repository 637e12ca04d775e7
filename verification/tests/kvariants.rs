use charabia::kvariants::{kvariant_of, load_kvariants, relation_class, KVariant, KVariantClass};

// The rows of the kVariants table that the assertions below look at, in the compressed form
// (`source,relation,destination`) that the library reads.
const DICTIONARY: &str = "澚,wrong!,澳\n䀾,sem,䁈\n亚,simp,亞\n㮺,old,本\n刄,=,刃\n";

#[test]
fn test_kvariants() {
    let kvariants = load_kvariants(DICTIONARY).unwrap();
    assert_eq!(
        kvariant_of(&kvariants, '澚'),
        Some(KVariant {
            source_ideograph: '澚',
            classification: KVariantClass::Wrong,
            destination_ideograph: '澳'
        }),
    );
    assert_eq!(
        kvariant_of(&kvariants, '䀾'),
        Some(KVariant {
            source_ideograph: '䀾',
            classification: KVariantClass::SementicVariant,
            destination_ideograph: '䁈',
        }),
    );
    assert_eq!(
        kvariant_of(&kvariants, '亚'),
        Some(KVariant {
            source_ideograph: '亚',
            classification: KVariantClass::Simplified,
            destination_ideograph: '亞',
        }),
    );
    assert_eq!(
        kvariant_of(&kvariants, '㮺'),
        Some(KVariant {
            source_ideograph: '㮺',
            classification: KVariantClass::Old,
            destination_ideograph: '本',
        }),
    );
    assert_eq!(
        kvariant_of(&kvariants, '刄'),
        Some(KVariant {
            source_ideograph: '刄',
            classification: KVariantClass::Equal,
            destination_ideograph: '刃',
        }),
    );
    assert_eq!(kvariant_of(&kvariants, '刃'), None);
}

#[test]
fn test_no_loop() {
    let kvariants = load_kvariants(DICTIONARY).unwrap();
    for value in kvariants.values() {
        match kvariant_of(&kvariants, value.destination_ideograph) {
            None => (),
            Some(reverse_lookup_value) => {
                assert_ne!(value.destination_ideograph, reverse_lookup_value.destination_ideograph);
            }
        }
    }
}

#[test]
fn relations_of_the_table() {
    assert_eq!(relation_class("wrong!"), Some(KVariantClass::Wrong));
    assert_eq!(relation_class("sem"), Some(KVariantClass::SementicVariant));
    assert_eq!(relation_class("simp"), Some(KVariantClass::Simplified));
    assert_eq!(relation_class("old"), Some(KVariantClass::Old));
    assert_eq!(relation_class("="), Some(KVariantClass::Equal));
    assert_eq!(relation_class("other"), None);
}

#[test]
fn unknown_relations_are_skipped_and_later_rows_win() {
    let kvariants = load_kvariants("a,unknown,b\nc,sem,d\nc,old,e\n").unwrap();
    assert_eq!(kvariant_of(&kvariants, 'a'), None);
    assert_eq!(
        kvariant_of(&kvariants, 'c'),
        Some(KVariant {
            source_ideograph: 'c',
            classification: KVariantClass::Old,
            destination_ideograph: 'e',
        }),
    );
}

#[test]
fn rows_that_are_not_rows_are_refused() {
    assert!(load_kvariants("a,sem\n").is_none());
    assert!(load_kvariants(",sem,b\n").is_none());
    assert!(load_kvariants("a,sem,b,c\n").is_none());
    assert!(load_kvariants("").unwrap().is_empty());
}
