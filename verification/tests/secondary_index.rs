use tezedge_debugger::storage_::secondary_index::{concrete_prefix, index_key, Access, FilterField};

struct Record {
    kind: u8,
}

struct Kind(u8);

impl Access<Kind> for Record {
    fn accessor(&self) -> Kind {
        Kind(self.kind)
    }
}

impl FilterField<u64> for Kind {
    type Key = (u8, u64);

    fn make_index(&self, primary_key: &u64) -> (u8, u64) {
        (self.0, *primary_key)
    }
}

#[test]
fn index_key_uses_field_of_value() {
    let r = Record { kind: 3 };
    assert_eq!(index_key::<u64, Record, Kind>(&17, &r), (3, 17));
}

#[test]
fn lookup_starts_at_stored_key() {
    let r = Record { kind: 4 };
    let stored = index_key::<u64, Record, Kind>(&99, &r);
    assert_eq!(concrete_prefix(&99u64, &r.accessor()), stored);
}
