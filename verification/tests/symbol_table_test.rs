use monkey::compile::symbol_table::{Symbol, SymbolScope, SymbolTable};

    #[test]
    fn resolve_free() {
        let mut table = SymbolTable::new();
        table.define("a".to_string());
        table.define("b".to_string());

        // First local
        table.enclose();
        table.define("c".to_string());
        table.define("d".to_string());
        assert_eq!(
            Some(Symbol {
                scope: SymbolScope::Global,
                index: 0,
            }),
            table.resolve("a")
        );
        assert_eq!(
            Some(Symbol {
                scope: SymbolScope::Global,
                index: 1,
            }),
            table.resolve("b")
        );
        assert_eq!(
            Some(Symbol {
                scope: SymbolScope::Local,
                index: 0,
            }),
            table.resolve("c")
        );
        assert_eq!(
            Some(Symbol {
                scope: SymbolScope::Local,
                index: 1,
            }),
            table.resolve("d")
        );
        assert_eq!(table.free_symbols, vec![]);

        // Second local
        table.enclose();
        table.define("e".to_string());
        table.define("f".to_string());
        assert_eq!(
            Some(Symbol {
                scope: SymbolScope::Global,
                index: 0,
            }),
            table.resolve("a")
        );
        assert_eq!(
            Some(Symbol {
                scope: SymbolScope::Global,
                index: 1,
            }),
            table.resolve("b")
        );
        assert_eq!(
            Some(Symbol {
                scope: SymbolScope::Free,
                index: 0,
            }),
            table.resolve("c")
        );
        assert_eq!(
            Some(Symbol {
                scope: SymbolScope::Free,
                index: 1,
            }),
            table.resolve("d")
        );
        assert_eq!(
            Some(Symbol {
                scope: SymbolScope::Local,
                index: 0,
            }),
            table.resolve("e")
        );
        assert_eq!(
            Some(Symbol {
                scope: SymbolScope::Local,
                index: 1,
            }),
            table.resolve("f")
        );
        assert_eq!(
            vec![
                Symbol {
                    scope: SymbolScope::Local,
                    index: 0,
                },
                Symbol {
                    scope: SymbolScope::Local,
                    index: 1,
                },
            ],
            table.free_symbols
        )
    }
