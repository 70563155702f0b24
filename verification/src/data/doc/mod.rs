pub mod smiles;
